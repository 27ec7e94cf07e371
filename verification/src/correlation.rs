//! Bounded stripe-local links between logs, traces, and metrics.

use std::collections::BTreeMap;

use vstd::prelude::*;

use crate::attributes::{
    attribute_identity, canonical_attribute, encode_attribute, AttributeFingerprint,
    TelemetryAttribute,
};
use crate::correlation_history::{empty_state, log_step, metric_step, recorded, span_step};
use crate::correlation_query::{
    attribute_keys, event_keys, exemplar_keys, link_keys, log_index_keys, metric_index_keys,
    query_keys, span_index_keys, CorrelationKey, CorrelationQuery,
};
use crate::identity_cache::IdentityCache;
use crate::model::{
    record_order_is_total, record_order_is_transitive, TelemetryRecordRef,
};
use crate::records::{
    canonical_resource, canonical_scope, encode_resource, encode_scope, DurableLog,
    DurableMetricPoint, DurableSpan, MetricExemplar, ResourceContext, ResourceContextId,
    ScopeContext, ScopeContextId, SpanEvent, SpanLink,
};
use crate::text::same_str;

verus! {

/// Remembered resource and scope identities.
const CONTEXT_ID_CACHE_ENTRIES: usize = 64;

/// Remembered attribute identities.
const ATTRIBUTE_ID_CACHE_ENTRIES: usize = 1_024;

/// Hard bounds for one owner stripe's cross-signal postings.
#[derive(Debug, Clone, Copy, PartialEq, Eq, Structural)]
pub struct CorrelationConfig {
    /// Maximum distinct trace, resource, scope, and attribute keys combined.
    pub max_keys: usize,
    /// Maximum record references retained for one correlation key.
    pub max_refs_per_key: usize,
    /// Maximum references retained across all postings.
    pub max_total_refs: usize,
}

impl Default for CorrelationConfig {
    fn default() -> (config: Self)
        ensures
            config == (CorrelationConfig {
                max_keys: 65_536,
                max_refs_per_key: 4_096,
                max_total_refs: 1_048_576,
            }),
    {
        Self { max_keys: 65_536, max_refs_per_key: 4_096, max_total_refs: 1_048_576 }
    }
}

/// Snapshot of bounded correlation-index state.
#[derive(Debug, Clone, Copy, PartialEq, Eq, Structural)]
pub struct CorrelationStats {
    /// Distinct admitted correlation keys.
    pub keys: usize,
    /// Record references retained across all postings.
    pub refs: usize,
    /// Postings omitted because a configured bound was reached.
    pub dropped_postings: u64,
}

/// One record filed under one key.
#[derive(Debug, Clone, Copy, PartialEq, Eq, Structural)]
pub struct CorrelationPosting {
    /// The record.
    pub record_ref: TelemetryRecordRef,
    /// Its event time.
    pub timestamp_unix_nanos: u64,
}

/// Tenant number, kind and identity of a posting list.
pub type Slot = (u32, u8, u128);

/// Where the postings of a key are filed.
pub open spec fn slot_of(tenant_id: u32, key: CorrelationKey) -> Slot {
    (tenant_id, key.kind(), key.number())
}

/// Whether a posting list strictly increases by record.
pub open spec fn ordered(list: Seq<CorrelationPosting>) -> bool {
    forall|i: int, j: int|
        0 <= i < j < list.len() ==> (#[trigger] list[i]).record_ref.precedes(
            (#[trigger] list[j]).record_ref,
        )
}

/// Whether a posting list names a record.
pub open spec fn names(list: Seq<CorrelationPosting>, record: TelemetryRecordRef) -> bool {
    exists|i: int| 0 <= i < list.len() && (#[trigger] list[i]).record_ref == record
}

/// An ordered posting list with one more posting, unless its record is there.
pub open spec fn posted(list: Seq<CorrelationPosting>, posting: CorrelationPosting) -> Seq<
    CorrelationPosting,
>
    decreases list.len(),
{
    if list.len() == 0 {
        seq![posting]
    } else if list.last().record_ref.precedes(posting.record_ref) {
        list.push(posting)
    } else if list.last().record_ref == posting.record_ref {
        list
    } else {
        posted(list.drop_last(), posting).push(list.last())
    }
}

/// Postings over all keys.
pub open spec fn total(postings: Map<Slot, Seq<CorrelationPosting>>) -> nat
    decreases postings.dom().len(),
    when postings.dom().finite()
{
    if postings.dom().len() == 0 {
        0
    } else {
        let slot = postings.dom().choose();
        postings[slot].len() + total(postings.remove(slot))
    }
}

proof fn lemma_total_remove(postings: Map<Slot, Seq<CorrelationPosting>>, slot: Slot)
    requires
        postings.dom().finite(),
        postings.contains_key(slot),
    ensures
        total(postings) == postings[slot].len() + total(postings.remove(slot)),
    decreases postings.dom().len(),
{
    let chosen = postings.dom().choose();
    assert(postings.dom().contains(slot));
    assert(postings.dom().len() > 0);
    assert(postings.dom().contains(chosen));
    if chosen != slot {
        lemma_total_remove(postings.remove(chosen), slot);
        lemma_total_remove(postings.remove(slot), chosen);
        assert(postings.remove(chosen).remove(slot) =~= postings.remove(slot).remove(chosen));
    }
}

proof fn lemma_total_insert(
    postings: Map<Slot, Seq<CorrelationPosting>>,
    slot: Slot,
    list: Seq<CorrelationPosting>,
)
    requires
        postings.dom().finite(),
    ensures
        total(postings.insert(slot, list)) == total(postings.remove(slot)) + list.len(),
{
    lemma_total_remove(postings.insert(slot, list), slot);
    assert(postings.insert(slot, list).remove(slot) =~= postings.remove(slot));
}

/// What an index holds.
pub struct IndexState {
    /// Known tenants, numbered by position.
    pub tenants: Seq<Seq<char>>,
    /// Posting lists.
    pub postings: Map<Slot, Seq<CorrelationPosting>>,
    /// Postings over all keys.
    pub refs: nat,
    /// Postings omitted because a bound was reached.
    pub dropped_postings: u64,
}

/// Adds one, stopping at the largest value.
pub open spec fn saturating_next(count: u64) -> u64 {
    if count < u64::MAX {
        (count + 1) as u64
    } else {
        count
    }
}

impl IndexState {
    /// The posting list of a key, empty where there is none.
    pub open spec fn list(self, tenant_id: u32, key: CorrelationKey) -> Seq<CorrelationPosting> {
        if self.postings.contains_key(slot_of(tenant_id, key)) {
            self.postings[slot_of(tenant_id, key)]
        } else {
            Seq::empty()
        }
    }

    /// This state with one more omitted posting.
    pub open spec fn dropping(self) -> IndexState {
        IndexState { dropped_postings: saturating_next(self.dropped_postings), ..self }
    }

    /// This state after one record was offered to one key.
    pub open spec fn inserted(
        self,
        config: CorrelationConfig,
        tenant_id: u32,
        key: CorrelationKey,
        posting: CorrelationPosting,
    ) -> IndexState {
        let slot = slot_of(tenant_id, key);
        let list = self.list(tenant_id, key);
        if !self.postings.contains_key(slot) && self.postings.dom().len() >= config.max_keys {
            self.dropping()
        } else if list.len() > 0 && list.last().record_ref == posting.record_ref {
            self
        } else if list.len() >= config.max_refs_per_key || self.refs >= config.max_total_refs {
            IndexState { postings: self.postings.insert(slot, list), ..self }.dropping()
        } else {
            IndexState {
                postings: self.postings.insert(slot, posted(list, posting)),
                refs: (self.refs + posted(list, posting).len() - list.len()) as nat,
                ..self
            }
        }
    }

    /// This state after one record was offered to several keys in turn.
    pub open spec fn indexed(
        self,
        config: CorrelationConfig,
        tenant_id: u32,
        keys: Seq<CorrelationKey>,
        posting: CorrelationPosting,
    ) -> IndexState
        decreases keys.len(),
    {
        if keys.len() == 0 {
            self
        } else {
            self.indexed(config, tenant_id, keys.drop_last(), posting).inserted(
                config,
                tenant_id,
                keys.last(),
                posting,
            )
        }
    }

    /// The number of a tenant, where it is known.
    pub open spec fn tenant_number(self, tenant: Seq<char>) -> Option<u32> {
        if exists|i: int| 0 <= i < self.tenants.len() && self.tenants[i] == tenant {
            Some((choose|i: int| 0 <= i < self.tenants.len() && self.tenants[i] == tenant) as u32)
        } else {
            None
        }
    }

    /// This state once a tenant was looked up for writing, and its number.
    pub open spec fn admitting(self, config: CorrelationConfig, tenant: Seq<char>) -> (
        IndexState,
        Option<u32>,
    ) {
        if self.tenant_number(tenant) is Some {
            (self, self.tenant_number(tenant))
        } else if self.postings.dom().len() >= config.max_keys {
            (self.dropping(), None)
        } else if self.tenants.len() > u32::MAX {
            (self, None)
        } else {
            (
                IndexState { tenants: self.tenants.push(tenant), ..self },
                Some(self.tenants.len() as u32),
            )
        }
    }

    /// This state after a record of a tenant was offered to its keys.
    pub open spec fn recording(
        self,
        config: CorrelationConfig,
        tenant: Seq<char>,
        keys: Seq<CorrelationKey>,
        posting: CorrelationPosting,
    ) -> IndexState {
        let (admitted, number) = self.admitting(config, tenant);
        match number {
            Some(tenant_id) => admitted.indexed(config, tenant_id, keys, posting),
            None => admitted,
        }
    }

    /// What holds of every state: bounds are kept, lists are ordered, tenants
    /// are distinct and the count of postings is right.
    pub open spec fn sound(self, config: CorrelationConfig) -> bool {
        &&& self.postings.dom().finite()
        &&& self.postings.dom().len() <= config.max_keys
        &&& self.refs == total(self.postings)
        &&& self.refs <= config.max_total_refs
        &&& forall|slot: Slot| #[trigger]
            self.postings.contains_key(slot) ==> ordered(self.postings[slot])
                && self.postings[slot].len() <= config.max_refs_per_key
        &&& forall|i: int, j: int|
            0 <= i < j < self.tenants.len() ==> #[trigger] self.tenants[i]
                != #[trigger] self.tenants[j]
        &&& self.tenants.len() <= u32::MAX + 1
    }

    /// The posting lists of the keys of a query.
    pub open spec fn lists(self, tenant_id: u32, keys: Seq<CorrelationKey>) -> Seq<
        Seq<CorrelationPosting>,
    > {
        keys.map_values(|key: CorrelationKey| self.list(tenant_id, key))
    }

    /// The records that a query finds, in order.
    pub open spec fn found(self, query: CorrelationQuery) -> Seq<TelemetryRecordRef> {
        let keys = query.keys();
        match self.tenant_number(query.tenant@) {
            Some(tenant_id) if keys.len() > 0 => selected(self.lists(tenant_id, keys), query),
            _ => Seq::empty(),
        }
    }

    /// This state without postings from before `cutoff`.
    pub open spec fn retaining(self, cutoff: u64) -> IndexState {
        let kept = kept_postings(self.postings, cutoff);
        IndexState { postings: kept, refs: total(kept), ..self }
    }
}

/// The postings of a list from `cutoff` on.
pub open spec fn kept_list(list: Seq<CorrelationPosting>, cutoff: u64) -> Seq<CorrelationPosting>
    decreases list.len(),
{
    if list.len() == 0 {
        Seq::empty()
    } else if list.last().timestamp_unix_nanos >= cutoff {
        kept_list(list.drop_last(), cutoff).push(list.last())
    } else {
        kept_list(list.drop_last(), cutoff)
    }
}

/// Posting lists without postings from before `cutoff`, empty lists removed.
pub open spec fn kept_postings(
    postings: Map<Slot, Seq<CorrelationPosting>>,
    cutoff: u64,
) -> Map<Slot, Seq<CorrelationPosting>> {
    Map::new(
        |slot: Slot|
            postings.contains_key(slot) && kept_list(postings[slot], cutoff).len() > 0,
        |slot: Slot| kept_list(postings[slot], cutoff),
    )
}

/// Position of the earliest of the shortest lists.
pub open spec fn shortest(lists: Seq<Seq<CorrelationPosting>>) -> int
    decreases lists.len(),
{
    if lists.len() <= 1 {
        0
    } else {
        let best = shortest(lists.drop_last());
        if lists.last().len() < lists[best].len() {
            lists.len() - 1
        } else {
            best
        }
    }
}

/// Whether a posting of one list belongs to the answer: it comes after the
/// continuation point, has the wanted signal and time, and every list names it.
pub open spec fn wanted(
    posting: CorrelationPosting,
    lists: Seq<Seq<CorrelationPosting>>,
    query: CorrelationQuery,
) -> bool {
    &&& query.after matches Some(after) ==> after.precedes(posting.record_ref)
    &&& query.signal matches Some(signal) ==> posting.record_ref.signal == signal
    &&& query.start_time_unix_nanos matches Some(start) ==> posting.timestamp_unix_nanos >= start
    &&& query.end_time_unix_nanos matches Some(end) ==> posting.timestamp_unix_nanos <= end
    &&& forall|i: int| 0 <= i < lists.len() ==> names(#[trigger] lists[i], posting.record_ref)
}

/// The records of the shortest list that belong to the answer, up to the limit.
pub open spec fn selected(
    lists: Seq<Seq<CorrelationPosting>>,
    query: CorrelationQuery,
) -> Seq<TelemetryRecordRef> {
    let all = matching(lists[shortest(lists)], lists, query);
    if all.len() <= query.limit {
        all
    } else {
        all.take(query.limit as int)
    }
}

/// The records of a list that belong to the answer.
pub open spec fn matching(
    list: Seq<CorrelationPosting>,
    lists: Seq<Seq<CorrelationPosting>>,
    query: CorrelationQuery,
) -> Seq<TelemetryRecordRef>
    decreases list.len(),
{
    if list.len() == 0 {
        Seq::empty()
    } else if wanted(list.last(), lists, query) {
        matching(list.drop_last(), lists, query).push(list.last().record_ref)
    } else {
        matching(list.drop_last(), lists, query)
    }
}

/// Preallocated, single-writer correlation postings owned by one stripe.
///
/// Reaching a bound drops only an optional navigation posting; durable signal
/// storage and each signal's exact native indexes remain authoritative.
#[derive(Debug)]
pub struct CorrelationIndex {
    config: CorrelationConfig,
    tenants: Vec<String>,
    postings: BTreeMap<Slot, Vec<CorrelationPosting>>,
    resource_ids: IdentityCache,
    scope_ids: IdentityCache,
    attribute_ids: IdentityCache,
    refs: usize,
    dropped_postings: u64,
}

impl CorrelationIndex {
    /// What this index holds.
    pub closed spec fn state(&self) -> IndexState {
        IndexState {
            tenants: self.tenants@.map_values(|tenant: String| tenant@),
            postings: self.postings@.map_values(|list: Vec<CorrelationPosting>| list@),
            refs: self.refs as nat,
            dropped_postings: self.dropped_postings,
        }
    }

    /// The bounds of this index.
    pub closed spec fn bounds(&self) -> CorrelationConfig {
        self.config
    }

    /// The index is within its bounds and its memos are right.
    pub closed spec fn well_formed(&self) -> bool {
        &&& self.state().sound(self.config)
        &&& self.resource_ids.faithful()
        &&& self.scope_ids.faithful()
        &&& self.attribute_ids.faithful()
    }

    /// Creates a bounded stripe-local index.
    #[must_use]
    pub fn new(config: CorrelationConfig) -> (index: Self)
        ensures
            index.well_formed(),
            index.bounds() == config,
            index.state().tenants == Seq::<Seq<char>>::empty(),
            index.state().postings == Map::<Slot, Seq<CorrelationPosting>>::empty(),
            index.state().refs == 0,
            index.state().dropped_postings == 0,
            index.state() == empty_state(),
    {
        let index = Self {
            config,
            tenants: Vec::new(),
            postings: BTreeMap::new(),
            resource_ids: IdentityCache::new(CONTEXT_ID_CACHE_ENTRIES),
            scope_ids: IdentityCache::new(CONTEXT_ID_CACHE_ENTRIES),
            attribute_ids: IdentityCache::new(ATTRIBUTE_ID_CACHE_ENTRIES),
            refs: 0,
            dropped_postings: 0,
        };
        proof {
            assert(index.state().tenants =~= Seq::<Seq<char>>::empty());
            assert(index.state().postings =~= Map::<Slot, Seq<CorrelationPosting>>::empty());
        }
        index
    }

    /// Returns current bounds and drop diagnostics.
    #[must_use]
    pub fn stats(&self) -> (stats: CorrelationStats)
        ensures
            stats.keys == self.state().postings.dom().len(),
            stats.refs == self.state().refs,
            stats.dropped_postings == self.state().dropped_postings,
    {
        assert(self.state().postings.dom() =~= self.postings@.dom());
        CorrelationStats {
            keys: self.postings.len(),
            refs: self.refs,
            dropped_postings: self.dropped_postings,
        }
    }
}

/// First position whose record does not precede `record`.
fn rank(list: &Vec<CorrelationPosting>, record: TelemetryRecordRef) -> (position: usize)
    requires
        ordered(list@),
    ensures
        position <= list@.len(),
        forall|i: int| 0 <= i < position ==> (#[trigger] list@[i]).record_ref.precedes(record),
        forall|i: int|
            position <= i < list@.len() ==> !(#[trigger] list@[i]).record_ref.precedes(record),
{
    let mut low: usize = 0;
    let mut high: usize = list.len();
    while low < high
        invariant
            low <= high <= list@.len(),
            ordered(list@),
            forall|i: int| 0 <= i < low ==> (#[trigger] list@[i]).record_ref.precedes(record),
            forall|i: int|
                high <= i < list@.len() ==> !(#[trigger] list@[i]).record_ref.precedes(record),
        decreases high - low,
    {
        let middle = low + (high - low) / 2;
        if list[middle].record_ref.is_before(&record) {
            proof {
                assert forall|i: int| 0 <= i < middle + 1 implies (
                #[trigger] list@[i]).record_ref.precedes(record) by {
                    if i < middle {
                        record_order_is_transitive(
                            list@[i].record_ref,
                            list@[middle as int].record_ref,
                            record,
                        );
                    }
                }
            }
            low = middle + 1;
        } else {
            proof {
                assert forall|i: int| middle <= i < list@.len() implies !(
                #[trigger] list@[i]).record_ref.precedes(record) by {
                    if i > middle && list@[i].record_ref.precedes(record) {
                        record_order_is_transitive(
                            list@[middle as int].record_ref,
                            list@[i].record_ref,
                            record,
                        );
                    }
                }
            }
            high = middle;
        }
    }
    low
}

/// Returns whether an ordered list names a record.
fn has_record(list: &Vec<CorrelationPosting>, record: TelemetryRecordRef) -> (named: bool)
    requires
        ordered(list@),
    ensures
        named == names(list@, record),
{
    let position = rank(list, record);
    let named = position < list.len() && list[position].record_ref == record;
    proof {
        if names(list@, record) {
            let i = choose|i: int| 0 <= i < list@.len() && list@[i].record_ref == record;
            record_order_is_total(record, record);
            assert(i >= position);
            if i > position {
                record_order_is_total(list@[position as int].record_ref, record);
                assert(list@[position as int].record_ref.precedes(list@[i].record_ref));
            }
        }
        if named {
            assert(list@[position as int].record_ref == record);
        }
    }
    named
}

/// Where a posting goes in an ordered list.
proof fn lemma_posted(
    list: Seq<CorrelationPosting>,
    posting: CorrelationPosting,
    position: int,
)
    requires
        ordered(list),
        0 <= position <= list.len(),
        forall|i: int|
            0 <= i < position ==> (#[trigger] list[i]).record_ref.precedes(posting.record_ref),
        forall|i: int|
            position <= i < list.len() ==> !(#[trigger] list[i]).record_ref.precedes(
                posting.record_ref,
            ),
    ensures
        position < list.len() && list[position].record_ref == posting.record_ref ==> posted(
            list,
            posting,
        ) == list,
        !(position < list.len() && list[position].record_ref == posting.record_ref) ==> posted(
            list,
            posting,
        ) == list.insert(position, posting) && ordered(list.insert(position, posting)),
    decreases list.len(),
{
    if list.len() == 0 {
        assert(list.insert(position, posting) =~= seq![posting]);
    } else if position == list.len() {
        assert(list.insert(position, posting) =~= list.push(posting));
        assert(list[list.len() - 1].record_ref.precedes(posting.record_ref));
    } else {
        let last = list.last();
        assert(!list[list.len() - 1].record_ref.precedes(posting.record_ref));
        let shorter = list.drop_last();
        assert forall|i: int, j: int| 0 <= i < j < shorter.len() implies (
        #[trigger] shorter[i]).record_ref.precedes((#[trigger] shorter[j]).record_ref) by {
            assert(list[i].record_ref.precedes(list[j].record_ref));
        }
        if last.record_ref == posting.record_ref {
            if position < list.len() - 1 {
                assert(list[position].record_ref.precedes(list[list.len() - 1].record_ref));
            }
        } else {
            record_order_is_total(last.record_ref, posting.record_ref);
            assert(posting.record_ref.precedes(last.record_ref));
            if position == list.len() - 1 {
                lemma_posted(shorter, posting, position);
                assert(posted(shorter, posting) == shorter.insert(position, posting));
                assert(list.insert(position, posting) =~= shorter.insert(position, posting).push(
                    last,
                ));
            } else {
                lemma_posted(shorter, posting, position);
                if list[position].record_ref == posting.record_ref {
                    assert(shorter.push(last) =~= list);
                } else {
                    assert(list.insert(position, posting) =~= shorter.insert(
                        position,
                        posting,
                    ).push(last));
                }
            }
        }
    }
    if !(position < list.len() && list[position].record_ref == posting.record_ref) {
        let grown = list.insert(position, posting);
        assert forall|i: int, j: int| 0 <= i < j < grown.len() implies (
        #[trigger] grown[i]).record_ref.precedes((#[trigger] grown[j]).record_ref) by {
            let from_i = if i < position {
                i
            } else {
                i - 1
            };
            let from_j = if j < position {
                j
            } else {
                j - 1
            };
            if i == position {
                assert(grown[j] == list[from_j]);
                record_order_is_total(list[from_j].record_ref, posting.record_ref);
                if from_j > position {
                    record_order_is_total(list[position].record_ref, posting.record_ref);
                    record_order_is_transitive(
                        posting.record_ref,
                        list[position].record_ref,
                        list[from_j].record_ref,
                    );
                }
            } else if j == position {
                assert(grown[i] == list[from_i]);
            } else {
                assert(grown[i] == list[from_i]);
                assert(grown[j] == list[from_j]);
                assert(list[from_i].record_ref.precedes(list[from_j].record_ref));
            }
        }
    }
}

impl CorrelationIndex {
    /// Nothing but the memos may have changed.
    spec fn same_postings(&self, other: &Self) -> bool {
        &&& self.config == other.config
        &&& self.tenants == other.tenants
        &&& self.postings == other.postings
        &&& self.refs == other.refs
        &&& self.dropped_postings == other.dropped_postings
    }

    fn resource_id(&mut self, context: &ResourceContext) -> (id: ResourceContextId)
        requires
            old(self).well_formed(),
        ensures
            id == context.identity(),
            final(self).well_formed(),
            final(self).same_postings(old(self)),
    {
        let mut encoding: Vec<u8> = Vec::new();
        encode_resource(context, &mut encoding);
        assert(encoding@ =~= canonical_resource(*context));
        ResourceContextId(self.resource_ids.id(encoding))
    }

    fn scope_id(&mut self, context: &ScopeContext) -> (id: ScopeContextId)
        requires
            old(self).well_formed(),
        ensures
            id == context.identity(),
            final(self).well_formed(),
            final(self).same_postings(old(self)),
    {
        let mut encoding: Vec<u8> = Vec::new();
        encode_scope(context, &mut encoding);
        assert(encoding@ =~= canonical_scope(*context));
        ScopeContextId(self.scope_ids.id(encoding))
    }

    fn push_attribute_set(
        &mut self,
        keys: &mut Vec<CorrelationKey>,
        attributes: &Vec<TelemetryAttribute>,
    )
        requires
            old(self).well_formed(),
        ensures
            final(keys)@ == old(keys)@ + attribute_keys(attributes@),
            final(self).well_formed(),
            final(self).same_postings(old(self)),
    {
        let ghost all = attribute_keys(attributes@);
        let mut index: usize = 0;
        assert(keys@ =~= old(keys)@ + all.take(0));
        while index < attributes.len()
            invariant
                index <= attributes@.len(),
                all == attribute_keys(attributes@),
                keys@ == old(keys)@ + all.take(index as int),
                self.well_formed(),
                self.same_postings(old(self)),
            decreases attributes@.len() - index,
        {
            let mut encoding: Vec<u8> = Vec::new();
            encode_attribute(&attributes[index], &mut encoding);
            assert(encoding@ =~= canonical_attribute(attributes@[index as int]));
            let id = AttributeFingerprint(self.attribute_ids.id(encoding));
            assert(id == attribute_identity(attributes@[index as int]));
            keys.push(CorrelationKey::Attribute(id));
            index = index + 1;
            assert(keys@ =~= old(keys)@ + all.take(index as int));
        }
        assert(all.take(index as int) =~= all);
    }

    fn push_contexts(
        &mut self,
        keys: &mut Vec<CorrelationKey>,
        resource: &ResourceContext,
        scope: &ScopeContext,
    )
        requires
            old(self).well_formed(),
        ensures
            final(keys)@ == old(keys)@ + seq![
                CorrelationKey::Resource(resource.identity()),
                CorrelationKey::Scope(scope.identity()),
            ] + attribute_keys(resource.attributes@) + attribute_keys(scope.attributes@),
            final(self).well_formed(),
            final(self).same_postings(old(self)),
    {
        let resource_id = self.resource_id(resource);
        let scope_id = self.scope_id(scope);
        keys.push(CorrelationKey::Resource(resource_id));
        keys.push(CorrelationKey::Scope(scope_id));
        self.push_attribute_set(keys, &resource.attributes);
        self.push_attribute_set(keys, &scope.attributes);
        assert(keys@ =~= old(keys)@ + seq![
            CorrelationKey::Resource(resource.identity()),
            CorrelationKey::Scope(scope.identity()),
        ] + attribute_keys(resource.attributes@) + attribute_keys(scope.attributes@));
    }

    fn push_links(&mut self, keys: &mut Vec<CorrelationKey>, links: &Vec<SpanLink>)
        requires
            old(self).well_formed(),
        ensures
            final(keys)@ == old(keys)@ + link_keys(links@),
            final(self).well_formed(),
            final(self).same_postings(old(self)),
    {
        let mut index: usize = 0;
        assert(links@.take(0) =~= Seq::<SpanLink>::empty());
        assert(keys@ =~= old(keys)@ + link_keys(links@.take(0)));
        while index < links.len()
            invariant
                index <= links@.len(),
                keys@ == old(keys)@ + link_keys(links@.take(index as int)),
                self.well_formed(),
                self.same_postings(old(self)),
            decreases links@.len() - index,
        {
            keys.push(CorrelationKey::Trace(links[index].trace_id));
            self.push_attribute_set(keys, &links[index].attributes);
            proof {
                let longer = links@.take(index + 1);
                assert(longer.drop_last() =~= links@.take(index as int));
                assert(keys@ =~= old(keys)@ + link_keys(longer));
            }
            index = index + 1;
        }
        assert(links@.take(index as int) =~= links@);
    }

    fn push_events(&mut self, keys: &mut Vec<CorrelationKey>, events: &Vec<SpanEvent>)
        requires
            old(self).well_formed(),
        ensures
            final(keys)@ == old(keys)@ + event_keys(events@),
            final(self).well_formed(),
            final(self).same_postings(old(self)),
    {
        let mut index: usize = 0;
        assert(events@.take(0) =~= Seq::<SpanEvent>::empty());
        assert(keys@ =~= old(keys)@ + event_keys(events@.take(0)));
        while index < events.len()
            invariant
                index <= events@.len(),
                keys@ == old(keys)@ + event_keys(events@.take(index as int)),
                self.well_formed(),
                self.same_postings(old(self)),
            decreases events@.len() - index,
        {
            self.push_attribute_set(keys, &events[index].attributes);
            proof {
                let longer = events@.take(index + 1);
                assert(longer.drop_last() =~= events@.take(index as int));
                assert(keys@ =~= old(keys)@ + event_keys(longer));
            }
            index = index + 1;
        }
        assert(events@.take(index as int) =~= events@);
    }

    fn push_exemplars(&mut self, keys: &mut Vec<CorrelationKey>, exemplars: &Vec<MetricExemplar>)
        requires
            old(self).well_formed(),
        ensures
            final(keys)@ == old(keys)@ + exemplar_keys(exemplars@),
            final(self).well_formed(),
            final(self).same_postings(old(self)),
    {
        let mut index: usize = 0;
        assert(exemplars@.take(0) =~= Seq::<MetricExemplar>::empty());
        assert(keys@ =~= old(keys)@ + exemplar_keys(exemplars@.take(0)));
        while index < exemplars.len()
            invariant
                index <= exemplars@.len(),
                keys@ == old(keys)@ + exemplar_keys(exemplars@.take(index as int)),
                self.well_formed(),
                self.same_postings(old(self)),
            decreases exemplars@.len() - index,
        {
            if let Some(id) = exemplars[index].trace_id {
                keys.push(CorrelationKey::Trace(id));
            }
            self.push_attribute_set(keys, &exemplars[index].filtered_attributes);
            proof {
                let longer = exemplars@.take(index + 1);
                assert(longer.drop_last() =~= exemplars@.take(index as int));
                assert(keys@ =~= old(keys)@ + exemplar_keys(longer));
            }
            index = index + 1;
        }
        assert(exemplars@.take(index as int) =~= exemplars@);
    }

    /// Indexes one durable log without retaining its body or metadata values.
    pub fn index_log(&mut self, tenant: &str, log: &DurableLog)
        requires
            old(self).well_formed(),
        ensures
            final(self).well_formed(),
            final(self).bounds() == old(self).bounds(),
            final(self).state() == old(self).state().recording(
                old(self).bounds(),
                tenant@,
                log_index_keys(*log),
                CorrelationPosting {
                    record_ref: log.record_ref,
                    timestamp_unix_nanos: log.timestamp_unix_nanos,
                },
            ),
            final(self).state() == recorded(
                old(self).state(),
                old(self).bounds(),
                log_step(tenant@, *log),
            ),
    {
        let Some(tenant_id) = self.tenant_id(tenant) else {
            return;
        };
        let ghost admitted = self.state();
        let mut keys: Vec<CorrelationKey> = Vec::new();
        if let Some(trace_id) = log.trace_id {
            keys.push(CorrelationKey::Trace(trace_id));
        }
        self.push_contexts(&mut keys, &log.resource, &log.scope);
        self.push_attribute_set(&mut keys, &log.attributes);
        assert(keys@ =~= log_index_keys(*log));
        assert(self.state() == admitted);
        self.index_keys(
            tenant_id,
            &keys,
            CorrelationPosting {
                record_ref: log.record_ref,
                timestamp_unix_nanos: log.timestamp_unix_nanos,
            },
        );
    }

    /// Indexes one durable span, including event and link metadata.
    pub fn index_span(&mut self, span: &DurableSpan)
        requires
            old(self).well_formed(),
        ensures
            final(self).well_formed(),
            final(self).bounds() == old(self).bounds(),
            final(self).state() == old(self).state().recording(
                old(self).bounds(),
                span.tenant@,
                span_index_keys(*span),
                CorrelationPosting {
                    record_ref: span.record_ref,
                    timestamp_unix_nanos: span.start_time_unix_nanos,
                },
            ),
            final(self).state() == recorded(
                old(self).state(),
                old(self).bounds(),
                span_step(*span),
            ),
    {
        let Some(tenant_id) = self.tenant_id(span.tenant.as_str()) else {
            return;
        };
        let ghost admitted = self.state();
        let mut keys: Vec<CorrelationKey> = Vec::new();
        keys.push(CorrelationKey::Trace(span.trace_id));
        self.push_links(&mut keys, &span.links);
        self.push_contexts(&mut keys, &span.resource, &span.scope);
        self.push_attribute_set(&mut keys, &span.attributes);
        self.push_events(&mut keys, &span.events);
        assert(keys@ =~= span_index_keys(*span));
        assert(self.state() == admitted);
        self.index_keys(
            tenant_id,
            &keys,
            CorrelationPosting {
                record_ref: span.record_ref,
                timestamp_unix_nanos: span.start_time_unix_nanos,
            },
        );
    }

    /// Indexes one metric point and connects exemplar trace IDs directly.
    pub fn index_metric(&mut self, point: &DurableMetricPoint)
        requires
            old(self).well_formed(),
        ensures
            final(self).well_formed(),
            final(self).bounds() == old(self).bounds(),
            final(self).state() == old(self).state().recording(
                old(self).bounds(),
                point.identity.tenant@,
                metric_index_keys(*point),
                CorrelationPosting {
                    record_ref: point.record_ref,
                    timestamp_unix_nanos: point.timestamp_unix_nanos,
                },
            ),
            final(self).state() == recorded(
                old(self).state(),
                old(self).bounds(),
                metric_step(*point),
            ),
    {
        let Some(tenant_id) = self.tenant_id(point.identity.tenant.as_str()) else {
            return;
        };
        let ghost admitted = self.state();
        let mut keys: Vec<CorrelationKey> = Vec::new();
        self.push_exemplars(&mut keys, &point.exemplars);
        self.push_contexts(&mut keys, &point.identity.resource, &point.identity.scope);
        self.push_attribute_set(&mut keys, &point.identity.point_attributes);
        self.push_attribute_set(&mut keys, &point.metadata);
        assert(keys@ =~= metric_index_keys(*point));
        assert(self.state() == admitted);
        self.index_keys(
            tenant_id,
            &keys,
            CorrelationPosting {
                record_ref: point.record_ref,
                timestamp_unix_nanos: point.timestamp_unix_nanos,
            },
        );
    }

    fn index_keys(
        &mut self,
        tenant_id: u32,
        keys: &Vec<CorrelationKey>,
        posting: CorrelationPosting,
    )
        requires
            old(self).well_formed(),
        ensures
            final(self).well_formed(),
            final(self).bounds() == old(self).bounds(),
            final(self).state() == old(self).state().indexed(
                old(self).bounds(),
                tenant_id,
                keys@,
                posting,
            ),
    {
        let mut index: usize = 0;
        assert(keys@.take(0) =~= Seq::<CorrelationKey>::empty());
        while index < keys.len()
            invariant
                index <= keys@.len(),
                self.well_formed(),
                self.bounds() == old(self).bounds(),
                self.state() == old(self).state().indexed(
                    old(self).bounds(),
                    tenant_id,
                    keys@.take(index as int),
                    posting,
                ),
            decreases keys@.len() - index,
        {
            self.insert(tenant_id, keys[index], posting);
            proof {
                let longer = keys@.take(index + 1);
                assert(longer.drop_last() =~= keys@.take(index as int));
            }
            index = index + 1;
        }
        assert(keys@.take(index as int) =~= keys@);
    }

    /// Position of a known tenant.
    fn known_tenant(&self, tenant: &str) -> (number: Option<u32>)
        requires
            self.well_formed(),
        ensures
            number == self.state().tenant_number(tenant@),
    {
        let ghost views = self.state().tenants;
        let mut index: usize = 0;
        while index < self.tenants.len()
            invariant
                views == self.state().tenants,
                views.len() == self.tenants@.len(),
                forall|i: int| 0 <= i < views.len() ==> #[trigger] views[i] == self.tenants@[i]@,
                forall|i: int| 0 <= i < index ==> #[trigger] views[i] != tenant@,
                self.well_formed(),
            decreases self.tenants@.len() - index,
        {
            if same_str(self.tenants[index].as_str(), tenant) {
                proof {
                    assert(views[index as int] == tenant@);
                    let chosen = choose|i: int| 0 <= i < views.len() && views[i] == tenant@;
                    if chosen < index {
                        assert(views[chosen] != views[index as int]);
                    } else if chosen > index {
                        assert(views[index as int] != views[chosen]);
                    }
                }
                return Some(index as u32);
            }
            index = index + 1;
        }
        None
    }

    /// Finds or admits a tenant.
    pub fn tenant_id(&mut self, tenant: &str) -> (number: Option<u32>)
        requires
            old(self).well_formed(),
        ensures
            final(self).well_formed(),
            final(self).bounds() == old(self).bounds(),
            (final(self).state(), number) == old(self).state().admitting(
                old(self).bounds(),
                tenant@,
            ),
    {
        if let Some(number) = self.known_tenant(tenant) {
            return Some(number);
        }
        assert(self.state().postings.dom() =~= self.postings@.dom());
        if self.postings.len() >= self.config.max_keys {
            self.dropped_postings = self.dropped_postings.saturating_add(1);
            return None;
        }
        if self.tenants.len() as u64 > u32::MAX as u64 {
            return None;
        }
        let number = self.tenants.len() as u32;
        self.tenants.push(tenant.to_owned());
        proof {
            let before = old(self).state().tenants;
            assert(self.state().tenants =~= before.push(tenant@));
            assert forall|i: int, j: int| 0 <= i < j < self.state().tenants.len() implies #[trigger]
            self.state().tenants[i] != #[trigger] self.state().tenants[j] by {
                if j < before.len() {
                    assert(before[i] != before[j]);
                } else {
                    assert(before[i] == self.state().tenants[i]);
                }
            }
        }
        Some(number)
    }

    /// Offers one record to one key.
    pub fn insert(&mut self, tenant_id: u32, key: CorrelationKey, posting: CorrelationPosting)
        requires
            old(self).well_formed(),
        ensures
            final(self).well_formed(),
            final(self).bounds() == old(self).bounds(),
            final(self).state() == old(self).state().inserted(
                old(self).bounds(),
                tenant_id,
                key,
                posting,
            ),
    {
        let (kind, number) = key.parts();
        let slot = (tenant_id, kind, number);
        let ghost before = self.state();
        let ghost list = before.list(tenant_id, key);
        assert(before.postings.dom() =~= self.postings@.dom());
        let room = self.postings.len() < self.config.max_keys;
        let mut refs = match self.postings.remove(&slot) {
            Some(refs) => refs,
            None => {
                if !room {
                    self.dropped_postings = self.dropped_postings.saturating_add(1);
                    assert(self.state().postings =~= before.postings);
                    return;
                }
                Vec::new()
            },
        };
        assert(refs@ =~= list);
        let ghost rest = before.postings.remove(slot);
        assert(self.state().postings =~= rest);
        let mut dropped = false;
        let mut added = false;
        if refs.len() > 0 && refs[refs.len() - 1].record_ref == posting.record_ref {
        } else if refs.len() >= self.config.max_refs_per_key || self.refs
            >= self.config.max_total_refs {
            dropped = true;
        } else {
            let position = rank(&refs, posting.record_ref);
            proof {
                lemma_posted(list, posting, position as int);
            }
            if position < refs.len() && refs[position].record_ref == posting.record_ref {
            } else {
                refs.insert(position, posting);
                added = true;
            }
        }
        let ghost updated = refs@;
        self.postings.insert(slot, refs);
        if dropped {
            self.dropped_postings = self.dropped_postings.saturating_add(1);
        }
        if added {
            self.refs = self.refs + 1;
        }
        proof {
            assert(self.state().postings =~= before.postings.insert(slot, updated));
            if before.postings.contains_key(slot) {
                lemma_total_remove(before.postings, slot);
                if updated == list {
                    assert(before.postings.insert(slot, list) =~= before.postings);
                }
            } else {
                assert(before.postings.remove(slot) =~= before.postings);
            }
            lemma_total_insert(before.postings, slot, updated);
            let after = self.state();
            assert(after == before.inserted(self.config, tenant_id, key, posting));
            assert forall|other: Slot| #[trigger] after.postings.contains_key(other) implies ordered(
                after.postings[other],
            ) && after.postings[other].len() <= self.config.max_refs_per_key by {
                if other != slot {
                    assert(before.postings.contains_key(other));
                } else if before.postings.contains_key(slot) {
                    assert(ordered(before.postings[slot]));
                }
            }
        }
    }
}

/// A longer list only adds to the answer, at its end.
proof fn lemma_matching_prefix(
    list: Seq<CorrelationPosting>,
    lists: Seq<Seq<CorrelationPosting>>,
    query: CorrelationQuery,
    length: int,
)
    requires
        0 <= length <= list.len(),
    ensures
        matching(list.take(length), lists, query).len() <= matching(list, lists, query).len(),
        matching(list, lists, query).take(
            matching(list.take(length), lists, query).len() as int,
        ) == matching(list.take(length), lists, query),
    decreases list.len(),
{
    let shorter = matching(list.take(length), lists, query);
    if length == list.len() {
        assert(list.take(length) =~= list);
        assert(shorter.take(shorter.len() as int) =~= shorter);
    } else {
        let rest = list.drop_last();
        lemma_matching_prefix(rest, lists, query, length);
        assert(rest.take(length) =~= list.take(length));
        assert(matching(list, lists, query).take(shorter.len() as int) =~= shorter);
    }
}

/// A list of which nothing is wanted adds nothing.
proof fn lemma_matching_nothing(
    list: Seq<CorrelationPosting>,
    lists: Seq<Seq<CorrelationPosting>>,
    query: CorrelationQuery,
)
    requires
        forall|i: int| 0 <= i < list.len() ==> !wanted(#[trigger] list[i], lists, query),
    ensures
        matching(list, lists, query) == Seq::<TelemetryRecordRef>::empty(),
    decreases list.len(),
{
    if list.len() > 0 {
        assert(!wanted(list[list.len() - 1], lists, query));
        assert forall|i: int| 0 <= i < list.drop_last().len() implies !wanted(
            #[trigger] list.drop_last()[i],
            lists,
            query,
        ) by {
            assert(list.drop_last()[i] == list[i]);
        }
        lemma_matching_nothing(list.drop_last(), lists, query);
    }
}

pub(crate) proof fn lemma_shortest_in_range(lists: Seq<Seq<CorrelationPosting>>)
    requires
        lists.len() > 0,
    ensures
        0 <= shortest(lists) < lists.len(),
    decreases lists.len(),
{
    if lists.len() > 1 {
        lemma_shortest_in_range(lists.drop_last());
    }
}

/// What is kept of a list comes from it, in its order.
proof fn lemma_kept_list(list: Seq<CorrelationPosting>, cutoff: u64)
    requires
        ordered(list),
    ensures
        ordered(kept_list(list, cutoff)),
        kept_list(list, cutoff).len() <= list.len(),
        forall|i: int|
            0 <= i < kept_list(list, cutoff).len() ==> list.contains(
                #[trigger] kept_list(list, cutoff)[i],
            ),
    decreases list.len(),
{
    if list.len() > 0 {
        let rest = list.drop_last();
        assert forall|i: int, j: int| 0 <= i < j < rest.len() implies (
        #[trigger] rest[i]).record_ref.precedes((#[trigger] rest[j]).record_ref) by {
            assert(list[i].record_ref.precedes(list[j].record_ref));
        }
        lemma_kept_list(rest, cutoff);
        let kept = kept_list(list, cutoff);
        let kept_rest = kept_list(rest, cutoff);
        assert forall|i: int| 0 <= i < kept_rest.len() implies list.contains(
            #[trigger] kept_rest[i],
        ) && kept_rest[i].record_ref.precedes(list.last().record_ref) by {
            let at = choose|at: int| 0 <= at < rest.len() && rest[at] == kept_rest[i];
            assert(list[at] == kept_rest[i]);
            assert(list[at].record_ref.precedes(list[list.len() - 1].record_ref));
        }
        assert forall|i: int| 0 <= i < kept.len() implies list.contains(#[trigger] kept[i]) by {
            if i < kept_rest.len() {
                assert(kept[i] == kept_rest[i]);
            } else {
                assert(list[list.len() - 1] == kept[i]);
            }
        }
        assert forall|i: int, j: int| 0 <= i < j < kept.len() implies (
        #[trigger] kept[i]).record_ref.precedes((#[trigger] kept[j]).record_ref) by {
            assert(kept[i] == kept_rest[i]);
            if j < kept_rest.len() {
                assert(kept[j] == kept_rest[j]);
            }
        }
    }
}

proof fn lemma_total_le(
    part: Map<Slot, Seq<CorrelationPosting>>,
    whole: Map<Slot, Seq<CorrelationPosting>>,
)
    requires
        part.dom().finite(),
        whole.dom().finite(),
        forall|slot: Slot| #[trigger]
            part.contains_key(slot) ==> whole.contains_key(slot) && part[slot].len()
                <= whole[slot].len(),
    ensures
        total(part) <= total(whole),
    decreases part.dom().len(),
{
    if part.dom().len() > 0 {
        let slot = part.dom().choose();
        assert(part.contains_key(slot));
        lemma_total_remove(whole, slot);
        lemma_total_le(part.remove(slot), whole.remove(slot));
    }
}

fn kept_since(list: &Vec<CorrelationPosting>, cutoff: u64) -> (kept: Vec<CorrelationPosting>)
    ensures
        kept@ == kept_list(list@, cutoff),
{
    let mut kept: Vec<CorrelationPosting> = Vec::new();
    let mut index: usize = 0;
    assert(list@.take(0) =~= Seq::<CorrelationPosting>::empty());
    while index < list.len()
        invariant
            index <= list@.len(),
            kept@ == kept_list(list@.take(index as int), cutoff),
        decreases list@.len() - index,
    {
        if list[index].timestamp_unix_nanos >= cutoff {
            kept.push(list[index]);
        }
        proof {
            let longer = list@.take(index + 1);
            assert(longer.drop_last() =~= list@.take(index as int));
        }
        index = index + 1;
    }
    assert(list@.take(index as int) =~= list@);
    kept
}

impl CorrelationIndex {
    /// Returns the deterministic intersection of every requested posting.
    #[must_use]
    pub fn query(&self, query: &CorrelationQuery) -> (records: Vec<TelemetryRecordRef>)
        requires
            self.well_formed(),
        ensures
            records@ == self.state().found(*query),
    {
        let keys = query_keys(query);
        if keys.len() == 0 {
            return Vec::new();
        }
        let Some(tenant_id) = self.known_tenant(query.tenant.as_str()) else {
            return Vec::new();
        };
        let ghost lists = self.state().lists(tenant_id, query.keys());
        proof {
            lemma_shortest_in_range(lists);
        }
        let mut found: Vec<&Vec<CorrelationPosting>> = Vec::new();
        let mut index: usize = 0;
        while index < keys.len()
            invariant
                index <= keys@.len(),
                keys@ == query.keys(),
                keys@.len() > 0,
                self.well_formed(),
                lists == self.state().lists(tenant_id, query.keys()),
                lists.len() == keys@.len(),
                0 <= shortest(lists) < lists.len(),
                self.state().tenant_number(query.tenant@) == Some(tenant_id),
                found@.len() == index,
                forall|i: int| 0 <= i < index ==> (#[trigger] found@[i])@ == lists[i],
                forall|i: int| 0 <= i < index ==> ordered(#[trigger] lists[i]),
            decreases keys@.len() - index,
        {
            let (kind, number) = keys[index].parts();
            let ghost slot = slot_of(tenant_id, keys@[index as int]);
            match self.postings.get(&(tenant_id, kind, number)) {
                Some(list) => {
                    assert(self.state().postings.contains_key(slot));
                    found.push(list);
                },
                None => {
                    proof {
                        assert(!self.state().postings.contains_key(slot));
                        assert(lists[index as int] =~= Seq::<CorrelationPosting>::empty());
                        let first = lists[shortest(lists)];
                        assert forall|i: int| 0 <= i < first.len() implies !wanted(
                            #[trigger] first[i],
                            lists,
                            *query,
                        ) by {
                            assert(!names(lists[index as int], first[i].record_ref));
                        }
                        lemma_matching_nothing(first, lists, *query);
                        assert(selected(lists, *query) =~= Seq::<TelemetryRecordRef>::empty());
                    }
                    return Vec::new();
                },
            }
            index = index + 1;
        }
        let best = shortest_list(&found, Ghost(lists));
        let first: &Vec<CorrelationPosting> = found[best];
        let mut records: Vec<TelemetryRecordRef> = Vec::new();
        if query.limit == 0 {
            assert(selected(lists, *query) =~= records@);
            return records;
        }
        let mut position: usize = first_after(first, query.after);
        proof {
            let skipped = first@.take(position as int);
            assert forall|i: int| 0 <= i < skipped.len() implies !wanted(
                #[trigger] skipped[i],
                lists,
                *query,
            ) by {
                assert(skipped[i] == first@[i]);
            }
            lemma_matching_nothing(skipped, lists, *query);
        }
        while position < first.len()
            invariant
                position <= first@.len(),
                self.state().tenant_number(query.tenant@) == Some(tenant_id),
                query.keys().len() > 0,
                lists == self.state().lists(tenant_id, query.keys()),
                found@.len() == lists.len(),
                forall|i: int| 0 <= i < lists.len() ==> (#[trigger] found@[i])@ == lists[i],
                forall|i: int| 0 <= i < lists.len() ==> ordered(#[trigger] lists[i]),
                0 <= shortest(lists) < lists.len(),
                first@ == lists[shortest(lists)],
                records@ == matching(first@.take(position as int), lists, *query),
                records@.len() < query.limit,
                query.after matches Some(after) ==> forall|i: int|
                    position <= i < first@.len() ==> after.precedes(
                        (#[trigger] first@[i]).record_ref,
                    ),
            decreases first@.len() - position,
        {
            let posting = first[position];
            proof {
                let longer = first@.take(position + 1);
                assert(longer.drop_last() =~= first@.take(position as int));
                assert(longer.last() == posting);
            }
            if in_scope(query, &posting) && in_every_list(&found, Ghost(lists), posting.record_ref) {
                records.push(posting.record_ref);
                if records.len() == query.limit {
                    proof {
                        lemma_matching_prefix(first@, lists, *query, position + 1);
                        let all = matching(first@, lists, *query);
                        assert(all.take(all.len() as int) =~= all);
                    }
                    assert(records@ =~= selected(lists, *query));
                    return records;
                }
            }
            position = position + 1;
        }
        assert(first@.take(position as int) =~= first@);
        records
    }

    /// Drops expired bounded navigation postings without touching durable data.
    pub fn retain_since_timestamp(&mut self, cutoff_timestamp_unix_nanos: u64)
        requires
            old(self).well_formed(),
        ensures
            final(self).well_formed(),
            final(self).bounds() == old(self).bounds(),
            final(self).state() == old(self).state().retaining(cutoff_timestamp_unix_nanos),
    {
        broadcast use vstd::std_specs::btree::group_btree_axioms;

        let cutoff = cutoff_timestamp_unix_nanos;
        let ghost before = self.state().postings;
        let mut kept: BTreeMap<Slot, Vec<CorrelationPosting>> = BTreeMap::new();
        let mut retained: usize = 0;
        let ghost mut held: Map<Slot, Seq<CorrelationPosting>> = Map::empty();
        let entries = self.postings.iter();
        let ghost all = vstd::std_specs::iter::IteratorSpec::remaining(&entries);
        let ghost keys = all.map_values(|entry: (&Slot, &Vec<CorrelationPosting>)| *entry.0);
        assert(vstd::std_specs::btree::increasing_seq(keys));
        assert forall|i: int, j: int| 0 <= i < j < keys.len() implies #[trigger] keys[i]
            != #[trigger] keys[j] by {
            assert(vstd::std_specs::cmp::OrdSpec::cmp_spec(&keys[i], &keys[j]) is Less);
        }
        assert forall|slot: Slot| #[trigger] before.contains_key(slot) implies exists|i: int|
            0 <= i < keys.len() && #[trigger] keys[i] == slot by {
            assert(self.postings@.contains_key(slot));
            let pair = (&slot, &self.postings@[slot]);
            assert(all.contains(pair));
            let i = choose|i: int| 0 <= i < all.len() && all[i] == pair;
            assert(keys[i] == slot);
        }
        for entry in iter: entries
            invariant
                iter.seq() == all,
                keys == all.map_values(|entry: (&Slot, &Vec<CorrelationPosting>)| *entry.0),
                forall|i: int, j: int|
                    0 <= i < j < keys.len() ==> #[trigger] keys[i] != #[trigger] keys[j],
                forall|i: int|
                    0 <= i < all.len() ==> before.contains_key(#[trigger] keys[i])
                        && before[keys[i]] == all[i].1@,
                forall|slot: Slot| #[trigger]
                    before.contains_key(slot) ==> ordered(before[slot]),
                before.dom().finite(),
                total(before) <= usize::MAX,
                held == kept@.map_values(|list: Vec<CorrelationPosting>| list@),
                held.dom().finite(),
                forall|slot: Slot| #[trigger]
                    held.contains_key(slot) ==> before.contains_key(slot) && held[slot]
                        == kept_list(before[slot], cutoff) && held[slot].len() > 0 && exists|i: int|
                        0 <= i < iter.index() && #[trigger] keys[i] == slot,
                forall|i: int|
                    0 <= i < iter.index() && kept_list(before[#[trigger] keys[i]], cutoff).len() > 0
                        ==> held.contains_key(keys[i]),
                retained == total(held),
        {
            let list = kept_since(entry.1, cutoff);
            let ghost slot = *entry.0;
            let ghost at: int = iter.index();
            assert(keys[at] == slot);
            proof {
                lemma_kept_list(before[slot], cutoff);
                assert(!held.contains_key(slot)) by {
                    if held.contains_key(slot) {
                        let i = choose|i: int| 0 <= i < at && #[trigger] keys[i] == slot;
                        assert(keys[i] != keys[at]);
                    }
                }
                assert forall|other: Slot| #[trigger]
                    held.insert(slot, list@).contains_key(other) implies before.contains_key(other)
                    && held.insert(slot, list@)[other].len() <= before[other].len() by {
                    if other != slot {
                        assert(held.contains_key(other));
                        lemma_kept_list(before[other], cutoff);
                    }
                }
                lemma_total_le(held.insert(slot, list@), before);
                lemma_total_insert(held, slot, list@);
                assert(held.remove(slot) =~= held);
            }
            if list.len() > 0 {
                retained = retained + list.len();
                proof {
                    held = held.insert(slot, list@);
                }
                kept.insert(*entry.0, list);
                assert(held =~= kept@.map_values(|list: Vec<CorrelationPosting>| list@));
            }
            assert forall|other: Slot| #[trigger] held.contains_key(other) implies exists|i: int|
                0 <= i < at + 1 && #[trigger] keys[i] == other by {
                if other == slot {
                    assert(keys[at] == other);
                } else {
                    let i = choose|i: int| 0 <= i < at && #[trigger] keys[i] == other;
                    assert(keys[i] == other);
                }
            }
        }
        self.postings = kept;
        self.refs = retained;
        proof {
            let expected = kept_postings(before, cutoff);
            assert forall|slot: Slot| held.contains_key(slot) == expected.contains_key(slot) by {
                if expected.contains_key(slot) {
                    assert(before.contains_key(slot));
                    let i = choose|i: int| 0 <= i < keys.len() && #[trigger] keys[i] == slot;
                    assert(keys[i] == slot);
                }
            }
            assert(held =~= expected);
            assert forall|slot: Slot| #[trigger] held.contains_key(slot) implies ordered(held[slot])
                && held[slot].len() <= before[slot].len() by {
                lemma_kept_list(before[slot], cutoff);
            }
            lemma_total_le(held, before);
            assert(held.dom().subset_of(before.dom()));
            vstd::set_lib::lemma_len_subset(held.dom(), before.dom());
        }
    }
}

fn shortest_list(
    lists: &Vec<&Vec<CorrelationPosting>>,
    Ghost(views): Ghost<Seq<Seq<CorrelationPosting>>>,
) -> (best: usize)
    requires
        lists@.len() > 0,
        lists@.len() == views.len(),
        forall|i: int| 0 <= i < views.len() ==> (#[trigger] lists@[i])@ == views[i],
    ensures
        best == shortest(views),
        best < lists@.len(),
{
    let mut best: usize = 0;
    let mut index: usize = 1;
    while index < lists.len()
        invariant
            1 <= index <= lists@.len(),
            best < index,
            lists@.len() == views.len(),
            forall|i: int| 0 <= i < views.len() ==> (#[trigger] lists@[i])@ == views[i],
            best == shortest(views.take(index as int)),
        decreases lists@.len() - index,
    {
        proof {
            let longer = views.take(index + 1);
            assert(longer.drop_last() =~= views.take(index as int));
            assert(longer.last() == views[index as int]);
            assert(longer[best as int] == views[best as int]);
        }
        if lists[index].len() < lists[best].len() {
            best = index;
        }
        index = index + 1;
    }
    assert(views.take(index as int) =~= views);
    best
}

fn first_after(list: &Vec<CorrelationPosting>, after: Option<TelemetryRecordRef>) -> (position:
    usize)
    requires
        ordered(list@),
    ensures
        position <= list@.len(),
        after is None ==> position == 0,
        after matches Some(bound) ==> (forall|i: int|
            0 <= i < position ==> !bound.precedes((#[trigger] list@[i]).record_ref)) && (forall|
            i: int,
        | position <= i < list@.len() ==> bound.precedes((#[trigger] list@[i]).record_ref)),
{
    match after {
        None => 0,
        Some(bound) => {
            let mut position = rank(list, bound);
            let ghost start = position as int;
            if position < list.len() && list[position].record_ref == bound {
                position = position + 1;
            }
            proof {
                assert forall|i: int| 0 <= i < position implies !bound.precedes(
                    (#[trigger] list@[i]).record_ref,
                ) by {
                    record_order_is_total(list@[i].record_ref, bound);
                }
                assert forall|i: int| position <= i < list@.len() implies bound.precedes(
                    (#[trigger] list@[i]).record_ref,
                ) by {
                    record_order_is_total(list@[i].record_ref, bound);
                    if list@[i].record_ref == bound && start < i {
                        assert(list@[start].record_ref.precedes(list@[i].record_ref));
                    }
                }
            }
            position
        },
    }
}

fn in_scope(query: &CorrelationQuery, posting: &CorrelationPosting) -> (in_scope: bool)
    ensures
        in_scope == {
            &&& query.signal matches Some(signal) ==> posting.record_ref.signal == signal
            &&& query.start_time_unix_nanos matches Some(start) ==> posting.timestamp_unix_nanos
                >= start
            &&& query.end_time_unix_nanos matches Some(end) ==> posting.timestamp_unix_nanos <= end
        },
{
    if let Some(signal) = query.signal {
        if posting.record_ref.signal != signal {
            return false;
        }
    }
    if let Some(start) = query.start_time_unix_nanos {
        if posting.timestamp_unix_nanos < start {
            return false;
        }
    }
    if let Some(end) = query.end_time_unix_nanos {
        if posting.timestamp_unix_nanos > end {
            return false;
        }
    }
    true
}

fn in_every_list(
    lists: &Vec<&Vec<CorrelationPosting>>,
    Ghost(views): Ghost<Seq<Seq<CorrelationPosting>>>,
    record: TelemetryRecordRef,
) -> (everywhere: bool)
    requires
        lists@.len() == views.len(),
        forall|i: int| 0 <= i < views.len() ==> (#[trigger] lists@[i])@ == views[i],
        forall|i: int| 0 <= i < views.len() ==> ordered(#[trigger] views[i]),
    ensures
        everywhere == (forall|i: int| 0 <= i < views.len() ==> names(#[trigger] views[i], record)),
{
    let mut index: usize = 0;
    while index < lists.len()
        invariant
            lists@.len() == views.len(),
            forall|i: int| 0 <= i < views.len() ==> (#[trigger] lists@[i])@ == views[i],
            forall|i: int| 0 <= i < views.len() ==> ordered(#[trigger] views[i]),
            forall|i: int| 0 <= i < index ==> names(#[trigger] views[i], record),
        decreases lists@.len() - index,
    {
        assert(lists@[index as int]@ == views[index as int]);
        if !has_record(lists[index], record) {
            return false;
        }
        index = index + 1;
    }
    true
}

/// A record offered to a key with room is named under that key.
pub proof fn offered_records_are_named(
    state: IndexState,
    config: CorrelationConfig,
    tenant_id: u32,
    key: CorrelationKey,
    posting: CorrelationPosting,
)
    requires
        state.sound(config),
        state.postings.dom().len() < config.max_keys,
        state.list(tenant_id, key).len() < config.max_refs_per_key,
        state.refs < config.max_total_refs,
    ensures
        names(
            state.inserted(config, tenant_id, key, posting).list(tenant_id, key),
            posting.record_ref,
        ),
{
    let list = state.list(tenant_id, key);
    if list.len() > 0 && list.last().record_ref == posting.record_ref {
        assert(list[list.len() - 1].record_ref == posting.record_ref);
    } else {
        lemma_posted_names(list, posting);
    }
}

pub(crate) proof fn lemma_posted_names(list: Seq<CorrelationPosting>, posting: CorrelationPosting)
    ensures
        names(posted(list, posting), posting.record_ref),
    decreases list.len(),
{
    let grown = posted(list, posting);
    if list.len() == 0 {
        assert(grown[0].record_ref == posting.record_ref);
    } else if list.last().record_ref.precedes(posting.record_ref) || list.last().record_ref
        == posting.record_ref {
        assert(grown[grown.len() - 1].record_ref == posting.record_ref);
    } else {
        lemma_posted_names(list.drop_last(), posting);
        let shorter = posted(list.drop_last(), posting);
        let i = choose|i: int|
            0 <= i < shorter.len() && shorter[i].record_ref == posting.record_ref;
        assert(grown[i].record_ref == posting.record_ref);
    }
}

/// Every record that a query finds is filed under every key of the query, has
/// the wanted signal and comes after the continuation point.
pub proof fn found_records_satisfy_the_query(
    lists: Seq<Seq<CorrelationPosting>>,
    query: CorrelationQuery,
    at: int,
)
    requires
        lists.len() > 0,
        0 <= at < selected(lists, query).len(),
    ensures
        forall|i: int|
            0 <= i < lists.len() ==> names(#[trigger] lists[i], selected(lists, query)[at]),
        query.signal matches Some(signal) ==> selected(lists, query)[at].signal == signal,
        query.after matches Some(after) ==> after.precedes(selected(lists, query)[at]),
{
    lemma_matching_members(lists[shortest(lists)], lists, query, at);
}

pub(crate) proof fn lemma_matching_members(
    list: Seq<CorrelationPosting>,
    lists: Seq<Seq<CorrelationPosting>>,
    query: CorrelationQuery,
    at: int,
)
    requires
        0 <= at < matching(list, lists, query).len(),
    ensures
        exists|i: int|
            0 <= i < list.len() && (#[trigger] list[i]).record_ref == matching(
                list,
                lists,
                query,
            )[at] && wanted(list[i], lists, query),
    decreases list.len(),
{
    let rest = matching(list.drop_last(), lists, query);
    if at < rest.len() {
        lemma_matching_members(list.drop_last(), lists, query, at);
        let i = choose|i: int|
            0 <= i < list.drop_last().len() && (#[trigger] list.drop_last()[i]).record_ref
                == rest[at] && wanted(list.drop_last()[i], lists, query);
        assert(list[i] == list.drop_last()[i]);
    } else {
        assert(list[list.len() - 1].record_ref == matching(list, lists, query)[at]);
    }
}

/// A page that was cut off is continued by the query that starts after its
/// last record: the two pages together are the longer page.
pub proof fn pages_continue(
    list: Seq<CorrelationPosting>,
    lists: Seq<Seq<CorrelationPosting>>,
    query: CorrelationQuery,
    next: CorrelationQuery,
    cut: int,
)
    requires
        ordered(list),
        0 < cut <= matching(list, lists, query).len(),
        next == (CorrelationQuery {
            after: Some(matching(list, lists, query)[cut - 1]),
            ..query
        }),
    ensures
        matching(list, lists, query) == matching(list, lists, query).take(cut) + matching(
            list,
            lists,
            next,
        ),
    decreases list.len(),
{
    let all = matching(list, lists, query);
    let rest = list.drop_last();
    let bound = all[cut - 1];
    assert forall|i: int, j: int| 0 <= i < j < rest.len() implies (
    #[trigger] rest[i]).record_ref.precedes((#[trigger] rest[j]).record_ref) by {
        assert(list[i].record_ref.precedes(list[j].record_ref));
    }
    let earlier = matching(rest, lists, query);
    if wanted(list.last(), lists, query) {
        if cut == all.len() {
            // The bound is the last record of the list: nothing comes after it.
            assert forall|i: int| 0 <= i < list.len() implies !wanted(
                #[trigger] list[i],
                lists,
                next,
            ) by {
                record_order_is_total(list[i].record_ref, bound);
                if i < list.len() - 1 {
                    assert(list[i].record_ref.precedes(list[list.len() - 1].record_ref));
                }
            }
            lemma_matching_nothing(list, lists, next);
            assert(all =~= all.take(cut) + matching(list, lists, next));
        } else {
            pages_continue(rest, lists, query, next, cut);
            lemma_matching_members(rest, lists, query, cut - 1);
            let i = choose|i: int|
                0 <= i < rest.len() && (#[trigger] rest[i]).record_ref == earlier[cut - 1]
                    && wanted(rest[i], lists, query);
            assert(list[i].record_ref.precedes(list[list.len() - 1].record_ref));
            if let Some(after) = query.after {
                record_order_is_transitive(after, bound, list.last().record_ref);
            }
            assert(wanted(list.last(), lists, next));
            assert(all =~= all.take(cut) + matching(list, lists, next));
        }
    } else {
        pages_continue(rest, lists, query, next, cut);
        if wanted(list.last(), lists, next) {
            if let Some(after) = query.after {
                lemma_matching_members(rest, lists, query, cut - 1);
                record_order_is_transitive(after, bound, list.last().record_ref);
            }
            assert(wanted(list.last(), lists, query));
        }
        assert(all =~= all.take(cut) + matching(list, lists, next));
    }
}

} // verus!
