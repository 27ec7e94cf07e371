//! Immutable compression dictionaries: catalog and bounded cache.

use std::collections::BTreeMap;
use std::sync::Arc;

use vstd::prelude::*;

use crate::error::{TelemetryError, TelemetryResult};
use crate::shared::share;
use crate::text::same_bytes;

verus! {

/// Stable identifier for a compression cohort, such as a service and schema version.
#[derive(Debug, Clone, Copy, PartialEq, Eq, PartialOrd, Ord, Hash, Structural)]
pub struct CompressionCohortId(pub u64);

impl CompressionCohortId {
    /// Cohort used when a producer has not classified its log line.
    pub fn unclassified() -> (cohort: Self)
        ensures
            cohort.0 == 0,
    {
        Self(0)
    }

    /// Creates a cohort identifier.
    pub fn new(value: u64) -> (cohort: Self)
        ensures
            cohort.0 == value,
    {
        Self(value)
    }

    /// Returns the raw cohort identifier.
    pub fn get(self) -> (value: u64)
        ensures
            value == self.0,
    {
        self.0
    }
}

/// Stable identifier for an immutable compression dictionary.
#[derive(Debug, Clone, Copy, PartialEq, Eq, PartialOrd, Ord, Hash, Structural)]
pub struct DictionaryId(pub u128);

impl DictionaryId {
    /// Creates a dictionary identifier.
    pub fn new(value: u128) -> (id: Self)
        ensures
            id.0 == value,
    {
        Self(value)
    }

    /// Returns the raw dictionary identifier.
    pub fn get(self) -> (value: u128)
        ensures
            value == self.0,
    {
        self.0
    }
}

/// Final locality placement of a compression block.
#[derive(Debug, Clone, Copy, PartialEq, Eq, PartialOrd, Ord, Hash, Structural)]
pub struct CompressionPlacementId(pub u64);

impl CompressionPlacementId {
    /// Creates a placement identifier.
    pub fn new(value: u64) -> (id: Self)
        ensures
            id.0 == value,
    {
        Self(value)
    }

    /// Returns the raw placement identifier.
    pub fn get(self) -> (value: u64)
        ensures
            value == self.0,
    {
        self.0
    }

    /// The home placement of a source cohort.
    pub fn from_source_cohort(cohort: CompressionCohortId) -> (id: Self)
        ensures
            id.0 == cohort.0,
    {
        Self(cohort.0)
    }
}

/// Immutable control-plane view of published compression dictionaries.
///
/// A stripe copies a handle to this snapshot at batch boundaries and then
/// performs all record-level dictionary selection from its owned state. The
/// snapshot is never mutated after publication.
#[derive(Debug)]
pub struct DictionaryCatalogSnapshot {
    generation: u64,
    dictionaries: BTreeMap<u128, Arc<Vec<u8>>>,
    placement_dictionaries: BTreeMap<u64, DictionaryId>,
}

impl DictionaryCatalogSnapshot {
    /// Publication generation.
    pub closed spec fn generation_number(&self) -> u64 {
        self.generation
    }

    /// Published payloads by dictionary identifier.
    pub closed spec fn payloads(&self) -> Map<u128, Arc<Vec<u8>>> {
        self.dictionaries@
    }

    /// Dictionary assigned to each placement.
    pub closed spec fn assigned(&self) -> Map<u64, DictionaryId> {
        self.placement_dictionaries@
    }

    /// Every assigned dictionary is retained, and none is empty.
    pub open spec fn complete(&self) -> bool {
        &&& forall|placement: u64| #[trigger]
            self.assigned().contains_key(placement) ==> self.payloads().contains_key(
                self.assigned()[placement].0,
            )
        &&& forall|id: u128| #[trigger]
            self.payloads().contains_key(id) ==> self.payloads()[id]@.len() > 0
    }

    /// Returns the monotonically increasing publication generation.
    pub fn generation(&self) -> (generation: u64)
        ensures
            generation == self.generation_number(),
    {
        self.generation
    }

    /// Returns the immutable dictionary assigned to a final placement.
    pub fn dictionary_for(&self, placement_id: CompressionPlacementId) -> (found: Option<
        (DictionaryId, Arc<Vec<u8>>),
    >)
        ensures
            found == (if self.assigned().contains_key(placement_id.0)
                && self.payloads().contains_key(self.assigned()[placement_id.0].0) {
                Some(
                    (
                        self.assigned()[placement_id.0],
                        self.payloads()[self.assigned()[placement_id.0].0],
                    ),
                )
            } else {
                None
            }),
    {
        match self.placement_dictionaries.get(&placement_id.0) {
            None => None,
            Some(dictionary_id) => match self.dictionaries.get(&dictionary_id.0) {
                None => None,
                Some(payload) => Some((*dictionary_id, share(payload))),
            },
        }
    }

    /// Returns an immutable dictionary by identifier.
    pub fn dictionary(&self, dictionary_id: DictionaryId) -> (payload: Option<Arc<Vec<u8>>>)
        ensures
            payload == (if self.payloads().contains_key(dictionary_id.0) {
                Some(self.payloads()[dictionary_id.0])
            } else {
                None
            }),
    {
        match self.dictionaries.get(&dictionary_id.0) {
            None => None,
            Some(payload) => Some(share(payload)),
        }
    }

    /// Lists placement-to-dictionary assignments in placement order.
    pub fn assignments(&self) -> (list: Vec<(CompressionPlacementId, DictionaryId)>)
        ensures
            self.assigned().dom().finite(),
            list@.len() == self.assigned().len(),
            forall|placement: u64| #[trigger]
                self.assigned().contains_key(placement) ==> exists|i: int|
                    0 <= i < list@.len() && (#[trigger] list@[i]).0.0 == placement,
            forall|i: int|
                0 <= i < list@.len() ==> self.assigned().contains_key((#[trigger] list@[i]).0.0)
                    && list@[i].1 == self.assigned()[list@[i].0.0],
            forall|i: int, j: int|
                0 <= i < j < list@.len() ==> (#[trigger] list@[i]).0.0 < (
                #[trigger] list@[j]).0.0,
    {
        broadcast use vstd::std_specs::btree::group_btree_axioms;

        let mut list: Vec<(CompressionPlacementId, DictionaryId)> = Vec::new();
        let entries = self.placement_dictionaries.iter();
        let ghost all = vstd::std_specs::iter::IteratorSpec::remaining(&entries);
        let ghost keys = all.map_values(|entry: (&u64, &DictionaryId)| *entry.0);
        assert forall|i: int, j: int| 0 <= i < j < keys.len() implies keys[i] < keys[j] by {
            assert(vstd::std_specs::btree::increasing_seq(keys));
            assert(vstd::std_specs::cmp::OrdSpec::cmp_spec(&keys[i], &keys[j]) is Less);
        }
        for entry in iter: entries
            invariant
                iter.seq() == all,
                list@.len() == iter.index(),
                forall|i: int|
                    0 <= i < list@.len() ==> (#[trigger] list@[i]).0.0 == *all[i].0
                        && list@[i].1 == *all[i].1,
        {
            list.push((CompressionPlacementId::new(*entry.0), *entry.1));
        }
        assert forall|i: int| 0 <= i < list@.len() implies self.assigned().contains_key(
            (#[trigger] list@[i]).0.0,
        ) && list@[i].1 == self.assigned()[list@[i].0.0] && list@[i].0.0 == keys[i] by {
            assert(self.placement_dictionaries@.contains_key(*all[i].0));
        }
        assert forall|placement: u64| #[trigger] self.assigned().contains_key(
            placement,
        ) implies exists|i: int| 0 <= i < list@.len() && (#[trigger] list@[i]).0.0 == placement by {
            let pair = (&placement, &self.placement_dictionaries@[placement]);
            assert(self.placement_dictionaries@.contains_key(placement));
            assert(all.contains(pair));
            let i = choose|i: int| 0 <= i < all.len() && all[i] == pair;
            assert(list@[i].0.0 == placement);
        }
        list
    }

    /// Lists every retained dictionary payload in identifier order.
    pub fn dictionaries(&self) -> (list: Vec<(DictionaryId, Arc<Vec<u8>>)>)
        ensures
            self.payloads().dom().finite(),
            list@.len() == self.payloads().len(),
            forall|id: u128| #[trigger]
                self.payloads().contains_key(id) ==> exists|i: int|
                    0 <= i < list@.len() && (#[trigger] list@[i]).0.0 == id,
            forall|i: int|
                0 <= i < list@.len() ==> self.payloads().contains_key((#[trigger] list@[i]).0.0)
                    && list@[i].1 == self.payloads()[list@[i].0.0],
            forall|i: int, j: int|
                0 <= i < j < list@.len() ==> (#[trigger] list@[i]).0.0 < (
                #[trigger] list@[j]).0.0,
    {
        broadcast use vstd::std_specs::btree::group_btree_axioms;

        let mut list: Vec<(DictionaryId, Arc<Vec<u8>>)> = Vec::new();
        let entries = self.dictionaries.iter();
        let ghost all = vstd::std_specs::iter::IteratorSpec::remaining(&entries);
        let ghost keys = all.map_values(|entry: (&u128, &Arc<Vec<u8>>)| *entry.0);
        assert forall|i: int, j: int| 0 <= i < j < keys.len() implies keys[i] < keys[j] by {
            assert(vstd::std_specs::btree::increasing_seq(keys));
            assert(vstd::std_specs::cmp::OrdSpec::cmp_spec(&keys[i], &keys[j]) is Less);
        }
        for entry in iter: entries
            invariant
                iter.seq() == all,
                list@.len() == iter.index(),
                forall|i: int|
                    0 <= i < list@.len() ==> (#[trigger] list@[i]).0.0 == *all[i].0
                        && list@[i].1 == *all[i].1,
        {
            list.push((DictionaryId::new(*entry.0), share(entry.1)));
        }
        assert forall|i: int| 0 <= i < list@.len() implies self.payloads().contains_key(
            (#[trigger] list@[i]).0.0,
        ) && list@[i].1 == self.payloads()[list@[i].0.0] && list@[i].0.0 == keys[i] by {
            assert(self.dictionaries@.contains_key(*all[i].0));
        }
        assert forall|id: u128| #[trigger] self.payloads().contains_key(id) implies exists|i: int|
            0 <= i < list@.len() && (#[trigger] list@[i]).0.0 == id by {
            let pair = (&id, &self.dictionaries@[id]);
            assert(self.dictionaries@.contains_key(id));
            assert(all.contains(pair));
            let i = choose|i: int| 0 <= i < all.len() && all[i] == pair;
            assert(list@[i].0.0 == id);
        }
        list
    }
}

/// Result of atomically publishing an immutable dictionary assignment.
#[derive(Debug, Clone, Copy, PartialEq, Eq, Structural)]
pub struct DictionaryPublication {
    /// Generation containing the published assignment.
    pub generation: u64,
    /// Final placement now assigned to the dictionary.
    pub placement_id: CompressionPlacementId,
    /// Immutable dictionary selected for future blocks.
    pub dictionary_id: DictionaryId,
}

/// Control-plane catalog for immutable dictionaries and placement assignments.
///
/// Publication replaces the complete snapshot: handles obtained earlier keep
/// the state they were taken from.
#[derive(Debug)]
pub struct DictionaryCatalog {
    snapshot: Arc<DictionaryCatalogSnapshot>,
}

impl DictionaryCatalog {
    /// The current snapshot.
    pub closed spec fn current(&self) -> DictionaryCatalogSnapshot {
        *self.snapshot
    }

    /// Creates an empty dictionary catalog.
    pub fn new() -> (catalog: Self)
        ensures
            catalog.current().generation_number() == 0,
            catalog.current().payloads() == Map::<u128, Arc<Vec<u8>>>::empty(),
            catalog.current().assigned() == Map::<u64, DictionaryId>::empty(),
            catalog.current().complete(),
    {
        DictionaryCatalog {
            snapshot: Arc::new(
                DictionaryCatalogSnapshot {
                    generation: 0,
                    dictionaries: BTreeMap::new(),
                    placement_dictionaries: BTreeMap::new(),
                },
            ),
        }
    }

    /// Returns the current immutable publication snapshot.
    pub fn snapshot(&self) -> (snapshot: Arc<DictionaryCatalogSnapshot>)
        ensures
            *snapshot == self.current(),
    {
        share(&self.snapshot)
    }

    /// Publishes a dictionary and atomically assigns it to a placement.
    ///
    /// Reusing a dictionary ID with different bytes is rejected: a sealed block
    /// only stores the ID, so changing its meaning would make old blocks
    /// undecodable after an object-tier cache miss.
    pub fn publish(
        &mut self,
        placement_id: CompressionPlacementId,
        dictionary_id: DictionaryId,
        payload: Arc<Vec<u8>>,
    ) -> (result: TelemetryResult<DictionaryPublication>)
        requires
            old(self).current().complete(),
        ensures
            final(self).current().complete(),
            ({
                let before = old(self).current();
                let after = final(self).current();
                if payload@.len() == 0 {
                    &&& result == TelemetryResult::<DictionaryPublication>::Err(
                        TelemetryError::EmptyDictionary,
                    )
                    &&& after == before
                } else if before.payloads().contains_key(dictionary_id.0)
                    && before.payloads()[dictionary_id.0]@ != payload@ {
                    &&& result == TelemetryResult::<DictionaryPublication>::Err(
                        TelemetryError::DictionaryIdConflict(dictionary_id),
                    )
                    &&& after == before
                } else {
                    let generation = before.generation_number().wrapping_add(1);
                    &&& result == TelemetryResult::<DictionaryPublication>::Ok(
                        DictionaryPublication { generation, placement_id, dictionary_id },
                    )
                    &&& after.generation_number() == generation
                    &&& after.assigned() == before.assigned().insert(
                        placement_id.0,
                        dictionary_id,
                    )
                    &&& after.payloads() == (if before.payloads().contains_key(dictionary_id.0) {
                        before.payloads()
                    } else {
                        before.payloads().insert(dictionary_id.0, payload)
                    })
                }
            }),
    {
        if payload.len() == 0 {
            return Err(TelemetryError::EmptyDictionary);
        }
        let known = match self.snapshot.dictionaries.get(&dictionary_id.0) {
            Some(existing) => {
                if !same_bytes(existing.as_slice(), payload.as_slice()) {
                    return Err(TelemetryError::DictionaryIdConflict(dictionary_id));
                }
                true
            },
            None => false,
        };
        let generation: u64 = self.snapshot.generation.wrapping_add(1);
        let mut dictionaries = self.snapshot.dictionaries.clone();
        if !known {
            dictionaries.insert(dictionary_id.0, payload);
        }
        let mut placement_dictionaries = self.snapshot.placement_dictionaries.clone();
        placement_dictionaries.insert(placement_id.0, dictionary_id);
        self.snapshot =
        Arc::new(DictionaryCatalogSnapshot { generation, dictionaries, placement_dictionaries });
        proof {
            let before = old(self).current();
            let after = self.current();
            assert forall|placement: u64| #[trigger]
                after.assigned().contains_key(placement) implies after.payloads().contains_key(
                after.assigned()[placement].0,
            ) by {
                if placement != placement_id.0 {
                    assert(before.assigned().contains_key(placement));
                }
            }
            assert forall|id: u128| #[trigger]
                after.payloads().contains_key(id) implies after.payloads()[id]@.len() > 0 by {
                if before.payloads().contains_key(id) {
                    assert(after.payloads()[id] == before.payloads()[id]);
                }
            }
        }
        Ok(DictionaryPublication { generation, placement_id, dictionary_id })
    }
}

/// A published dictionary keeps its bytes: whatever is published later, its
/// identifier still names the same payload.
pub proof fn published_payloads_are_immutable(
    before: DictionaryCatalogSnapshot,
    after: DictionaryCatalogSnapshot,
    dictionary_id: DictionaryId,
    payload: Arc<Vec<u8>>,
    known: u128,
)
    requires
        before.payloads().contains_key(known),
        after.payloads() == (if before.payloads().contains_key(dictionary_id.0) {
            before.payloads()
        } else {
            before.payloads().insert(dictionary_id.0, payload)
        }),
    ensures
        after.payloads().contains_key(known),
        after.payloads()[known] == before.payloads()[known],
{
}

/// One resident dictionary.
#[derive(Debug)]
pub struct CachedDictionary {
    /// Identifier of the dictionary.
    pub dictionary_id: DictionaryId,
    /// Immutable dictionary bytes.
    pub payload: Arc<Vec<u8>>,
    /// Cache clock at the latest use.
    pub last_used: u64,
}

/// Outcome of inserting an immutable compression dictionary into a stripe cache.
#[derive(Debug, PartialEq, Eq)]
pub struct DictionaryInsert {
    /// Dictionary now cached by the stripe.
    pub dictionary_id: DictionaryId,
    /// Dictionaries evicted to maintain the byte capacity.
    pub evicted: Vec<DictionaryId>,
}

/// Bytes that a sequence of resident dictionaries occupies.
pub open spec fn resident_bytes(entries: Seq<CachedDictionary>) -> nat
    decreases entries.len(),
{
    if entries.len() == 0 {
        0
    } else {
        resident_bytes(entries.drop_last()) + entries.last().payload@.len()
    }
}

/// Whether no identifier occurs twice.
pub open spec fn distinct_ids(entries: Seq<CachedDictionary>) -> bool {
    forall|i: int, j: int|
        0 <= i < j < entries.len() ==> (#[trigger] entries[i]).dictionary_id != (
        #[trigger] entries[j]).dictionary_id
}

/// Whether `id` is resident.
pub open spec fn resident(entries: Seq<CachedDictionary>, id: DictionaryId) -> bool {
    exists|i: int| 0 <= i < entries.len() && (#[trigger] entries[i]).dictionary_id == id
}

/// `entries` without the dictionary `id`.
pub open spec fn without(entries: Seq<CachedDictionary>, id: DictionaryId) -> Seq<
    CachedDictionary,
> {
    if resident(entries, id) {
        let position = choose|i: int|
            0 <= i < entries.len() && (#[trigger] entries[i]).dictionary_id == id;
        entries.remove(position)
    } else {
        entries
    }
}

/// Whether position `i` holds the least recently used entry, the earliest of
/// those with the smallest clock.
pub open spec fn least_recent(entries: Seq<CachedDictionary>, i: int) -> bool {
    &&& 0 <= i < entries.len()
    &&& forall|j: int|
        0 <= j < entries.len() ==> entries[i].last_used <= (#[trigger] entries[j]).last_used
    &&& forall|j: int|
        0 <= j < i ==> entries[i].last_used < (#[trigger] entries[j]).last_used
}

/// What stays and what goes when the least recently used entries leave one by
/// one until the rest fits into `capacity` bytes.
pub open spec fn evict(entries: Seq<CachedDictionary>, capacity: nat) -> (
    Seq<CachedDictionary>,
    Seq<DictionaryId>,
)
    decreases entries.len(),
{
    if resident_bytes(entries) <= capacity || entries.len() == 0 {
        (entries, Seq::empty())
    } else {
        let oldest = choose|i: int| least_recent(entries, i);
        if 0 <= oldest < entries.len() {
            let (kept, gone) = evict(entries.remove(oldest), capacity);
            (kept, seq![entries[oldest].dictionary_id] + gone)
        } else {
            (entries, Seq::empty())
        }
    }
}

/// The least recently used position is unique.
proof fn lemma_least_recent_unique(entries: Seq<CachedDictionary>, i: int, j: int)
    requires
        least_recent(entries, i),
        least_recent(entries, j),
    ensures
        i == j,
{
    if i < j {
        assert(entries[j].last_used < entries[i].last_used);
    } else if j < i {
        assert(entries[i].last_used < entries[j].last_used);
    }
}

/// Removing one entry releases exactly its bytes.
proof fn lemma_resident_bytes_remove(entries: Seq<CachedDictionary>, i: int)
    requires
        0 <= i < entries.len(),
    ensures
        resident_bytes(entries) == resident_bytes(entries.remove(i)) + entries[i].payload@.len(),
    decreases entries.len(),
{
    if i == entries.len() - 1 {
        assert(entries.remove(i) =~= entries.drop_last());
    } else {
        lemma_resident_bytes_remove(entries.drop_last(), i);
        assert(entries.remove(i).drop_last() =~= entries.drop_last().remove(i));
        assert(entries.remove(i).last() == entries.last());
    }
}

/// Eviction keeps a subsequence, fits the capacity and leaves identifiers
/// distinct.
pub proof fn eviction_fits(entries: Seq<CachedDictionary>, capacity: nat)
    requires
        distinct_ids(entries),
    ensures
        resident_bytes(evict(entries, capacity).0) <= capacity,
        distinct_ids(evict(entries, capacity).0),
        evict(entries, capacity).0.len() + evict(entries, capacity).1.len() == entries.len(),
        forall|i: int|
            0 <= i < evict(entries, capacity).0.len() ==> entries.contains(
                #[trigger] evict(entries, capacity).0[i],
            ),
    decreases entries.len(),
{
    if resident_bytes(entries) > capacity && entries.len() > 0 {
        lemma_least_recent_exists(entries, entries.len() as int);
        let oldest = choose|i: int| least_recent(entries, i);
        let rest = entries.remove(oldest);
        assert forall|i: int, j: int| 0 <= i < j < rest.len() implies (
        #[trigger] rest[i]).dictionary_id != (#[trigger] rest[j]).dictionary_id by {
            let a = if i < oldest { i } else { i + 1 };
            let b = if j < oldest { j } else { j + 1 };
            assert(rest[i] == entries[a] && rest[j] == entries[b]);
        }
        eviction_fits(rest, capacity);
        assert forall|i: int| 0 <= i < evict(entries, capacity).0.len() implies entries.contains(
            #[trigger] evict(entries, capacity).0[i],
        ) by {
            let kept = evict(entries, capacity).0[i];
            assert(rest.contains(evict(rest, capacity).0[i]));
            let k = choose|k: int| 0 <= k < rest.len() && rest[k] == kept;
            assert(entries[if k < oldest { k } else { k + 1 }] == kept);
        }
    }
}

/// Every nonempty prefix has a least recently used position.
proof fn lemma_least_recent_exists(entries: Seq<CachedDictionary>, length: int) -> (position: int)
    requires
        0 < length <= entries.len(),
    ensures
        least_recent(entries.take(length), position),
        length == entries.len() ==> least_recent(entries, position),
    decreases length,
{
    let prefix = entries.take(length);
    let found = if length == 1 {
        0int
    } else {
        let earlier = lemma_least_recent_exists(entries, length - 1);
        let shorter = entries.take(length - 1);
        assert(shorter[earlier] == prefix[earlier]);
        assert forall|j: int| 0 <= j < length - 1 implies shorter[j] == #[trigger] prefix[j] by {}
        if prefix[length - 1].last_used < prefix[earlier].last_used {
            assert forall|j: int| 0 <= j < length - 1 implies prefix[length - 1].last_used < (
            #[trigger] prefix[j]).last_used by {
                assert(shorter[earlier].last_used <= shorter[j].last_used);
            }
            length - 1
        } else {
            assert forall|j: int| 0 <= j < length implies prefix[earlier].last_used <= (
            #[trigger] prefix[j]).last_used by {
                if j < length - 1 {
                    assert(shorter[earlier].last_used <= shorter[j].last_used);
                }
            }
            assert forall|j: int| 0 <= j < earlier implies prefix[earlier].last_used < (
            #[trigger] prefix[j]).last_used by {
                assert(shorter[earlier].last_used < shorter[j].last_used);
            }
            earlier
        }
    };
    assert(least_recent(prefix, found));
    if length == entries.len() {
        assert(prefix =~= entries);
    }
    found
}

/// Dictionaries leave in order of recency: whatever was evicted was used no
/// later than anything that stayed.
pub proof fn eviction_spares_recent_entries(
    entries: Seq<CachedDictionary>,
    capacity: nat,
    gone: int,
    kept: int,
)
    requires
        distinct_ids(entries),
        0 <= gone < entries.len(),
        0 <= kept < entries.len(),
        evict(entries, capacity).1.contains(entries[gone].dictionary_id),
        !evict(entries, capacity).1.contains(entries[kept].dictionary_id),
    ensures
        entries[gone].last_used <= entries[kept].last_used,
    decreases entries.len(),
{
    if resident_bytes(entries) > capacity && entries.len() > 0 {
        lemma_least_recent_exists(entries, entries.len() as int);
        let oldest = choose|i: int| least_recent(entries, i);
        let rest = entries.remove(oldest);
        let (_, later) = evict(rest, capacity);
        let all = seq![entries[oldest].dictionary_id] + later;
        assert(all == evict(entries, capacity).1);
        assert forall|i: int, j: int| 0 <= i < j < rest.len() implies (
        #[trigger] rest[i]).dictionary_id != (#[trigger] rest[j]).dictionary_id by {
            let a = if i < oldest { i } else { i + 1 };
            let b = if j < oldest { j } else { j + 1 };
            assert(rest[i] == entries[a] && rest[j] == entries[b]);
        }
        assert(all[0] == entries[oldest].dictionary_id);
        assert(kept != oldest);
        if gone != oldest {
            let position = choose|i: int|
                0 <= i < all.len() && all[i] == entries[gone].dictionary_id;
            if position == 0 {
                if gone < oldest {
                    assert(entries[gone].dictionary_id != entries[oldest].dictionary_id);
                } else {
                    assert(entries[oldest].dictionary_id != entries[gone].dictionary_id);
                }
            }
            assert(later[position - 1] == entries[gone].dictionary_id);
            let rest_gone = if gone < oldest { gone } else { gone - 1 };
            let rest_kept = if kept < oldest { kept } else { kept - 1 };
            assert(rest[rest_gone] == entries[gone]);
            assert(rest[rest_kept] == entries[kept]);
            assert forall|i: int| 0 <= i < later.len() implies later[i]
                != entries[kept].dictionary_id by {
                assert(all[i + 1] == later[i]);
            }
            eviction_spares_recent_entries(rest, capacity, rest_gone, rest_kept);
        }
    }
}

/// The entry that was used last stays, as long as it fits on its own.
pub proof fn eviction_keeps_the_latest_entry(
    entries: Seq<CachedDictionary>,
    capacity: nat,
    latest: int,
)
    requires
        0 <= latest < entries.len(),
        entries[latest].payload@.len() <= capacity,
        forall|i: int|
            0 <= i < entries.len() && i != latest ==> (#[trigger] entries[i]).last_used
                < entries[latest].last_used,
    ensures
        evict(entries, capacity).0.contains(entries[latest]),
    decreases entries.len(),
{
    if resident_bytes(entries) <= capacity {
        assert(evict(entries, capacity).0[latest] == entries[latest]);
    } else {
        lemma_least_recent_exists(entries, entries.len() as int);
        let oldest = choose|i: int| least_recent(entries, i);
        if oldest == latest {
            assert(entries.len() == 1) by {
                if entries.len() > 1 {
                    let other = if latest == 0 {
                        1int
                    } else {
                        0int
                    };
                    assert(entries[other].last_used < entries[latest].last_used);
                }
            }
            assert(entries.drop_last() =~= Seq::<CachedDictionary>::empty());
            assert(resident_bytes(entries.drop_last()) == 0);
        } else {
            let rest = entries.remove(oldest);
            let place = if latest < oldest {
                latest
            } else {
                latest - 1
            };
            assert(rest[place] == entries[latest]);
            assert forall|i: int| 0 <= i < rest.len() && i != place implies (
            #[trigger] rest[i]).last_used < rest[place].last_used by {
                let from = if i < oldest {
                    i
                } else {
                    i + 1
                };
                assert(rest[i] == entries[from]);
            }
            eviction_keeps_the_latest_entry(rest, capacity, place);
        }
    }
}

/// Byte-bounded LRU for immutable compression dictionaries.
///
/// Every sealed log block stores its [`DictionaryId`]. A cache miss is therefore
/// recoverable by loading that immutable dictionary from the durable dictionary
/// tier.
#[derive(Debug)]
pub struct DictionaryCache {
    capacity_bytes: usize,
    stored_bytes: usize,
    clock: u64,
    entries: Vec<CachedDictionary>,
}

/// Whether every dictionary but `id` was used before `now`.
pub open spec fn used_last(entries: Seq<CachedDictionary>, id: DictionaryId, now: u64) -> bool {
    forall|i: int|
        0 <= i < entries.len() && (#[trigger] entries[i]).dictionary_id != id
            ==> entries[i].last_used < now
}

/// What is left without a dictionary was there before.
proof fn lemma_without_members(entries: Seq<CachedDictionary>, id: DictionaryId, i: int)
    requires
        0 <= i < without(entries, id).len(),
    ensures
        entries.contains(without(entries, id)[i]),
{
    if resident(entries, id) {
        let position = choose|i: int|
            0 <= i < entries.len() && (#[trigger] entries[i]).dictionary_id == id;
        let from = if i < position {
            i
        } else {
            i + 1
        };
        assert(without(entries, id)[i] == entries[from]);
    }
}

impl DictionaryCache {
    /// Byte capacity.
    pub closed spec fn capacity(&self) -> usize {
        self.capacity_bytes
    }

    /// Use counter; every insertion and lookup advances it.
    pub closed spec fn now(&self) -> u64 {
        self.clock
    }

    /// Resident dictionaries.
    pub closed spec fn residents(&self) -> Seq<CachedDictionary> {
        self.entries@
    }

    /// Bytes that the cache accounts for.
    pub closed spec fn accounted(&self) -> usize {
        self.stored_bytes
    }

    /// The accounting is exact, within capacity, and no identifier is resident
    /// twice.
    pub open spec fn well_formed(&self) -> bool {
        &&& self.capacity() > 0
        &&& self.accounted() == resident_bytes(self.residents())
        &&& self.accounted() <= self.capacity()
        &&& distinct_ids(self.residents())
    }

    /// No resident dictionary was used later than the clock tells. This holds
    /// until the clock starts over.
    pub open spec fn in_step(&self) -> bool {
        forall|i: int|
            0 <= i < self.residents().len() ==> (#[trigger] self.residents()[i]).last_used
                <= self.now()
    }

    /// Creates an empty LRU cache with a nonzero byte capacity.
    pub fn new(capacity_bytes: usize) -> (result: TelemetryResult<Self>)
        ensures
            match result {
                Ok(cache) => {
                    &&& capacity_bytes > 0
                    &&& cache.well_formed()
                    &&& cache.in_step()
                    &&& cache.capacity() == capacity_bytes
                    &&& cache.now() == 0
                    &&& cache.residents() == Seq::<CachedDictionary>::empty()
                },
                Err(error) => capacity_bytes == 0 && (error matches TelemetryError::InvalidConfig(
                    message,
                ) && message@ == "dictionary_cache_bytes must be nonzero"@),
            },
    {
        if capacity_bytes == 0 {
            return Err(TelemetryError::InvalidConfig("dictionary_cache_bytes must be nonzero"));
        }
        Ok(DictionaryCache { capacity_bytes, stored_bytes: 0, clock: 0, entries: Vec::new() })
    }

    /// Returns the cache capacity in bytes.
    pub fn capacity_bytes(&self) -> (bytes: usize)
        ensures
            bytes == self.capacity(),
    {
        self.capacity_bytes
    }

    /// Returns the bytes currently resident in the cache.
    pub fn stored_bytes(&self) -> (bytes: usize)
        ensures
            bytes == self.accounted(),
    {
        self.stored_bytes
    }

    /// Returns the number of resident dictionaries.
    pub fn len(&self) -> (count: usize)
        ensures
            count == self.residents().len(),
    {
        self.entries.len()
    }

    /// Returns whether the cache has no resident dictionaries.
    pub fn is_empty(&self) -> (empty: bool)
        ensures
            empty == (self.residents().len() == 0),
    {
        self.entries.is_empty()
    }

    fn find(&self, dictionary_id: DictionaryId) -> (position: Option<usize>)
        ensures
            match position {
                Some(i) => i < self.residents().len() && self.residents()[i as int].dictionary_id
                    == dictionary_id,
                None => !resident(self.residents(), dictionary_id),
            },
    {
        let mut index: usize = 0;
        while index < self.entries.len()
            invariant
                index <= self.entries@.len(),
                forall|i: int|
                    0 <= i < index ==> (#[trigger] self.entries@[i]).dictionary_id
                        != dictionary_id,
            decreases self.entries@.len() - index,
        {
            if self.entries[index].dictionary_id == dictionary_id {
                return Some(index);
            }
            index = index + 1;
        }
        None
    }

    fn oldest(&self) -> (position: usize)
        requires
            self.residents().len() > 0,
        ensures
            least_recent(self.residents(), position as int),
    {
        let mut best: usize = 0;
        let mut index: usize = 1;
        while index < self.entries.len()
            invariant
                best < index <= self.entries@.len(),
                forall|j: int|
                    0 <= j < index ==> self.entries@[best as int].last_used <= (
                    #[trigger] self.entries@[j]).last_used,
                forall|j: int|
                    0 <= j < best ==> self.entries@[best as int].last_used < (
                    #[trigger] self.entries@[j]).last_used,
            decreases self.entries@.len() - index,
        {
            if self.entries[index].last_used < self.entries[best].last_used {
                best = index;
            }
            index = index + 1;
        }
        best
    }

    /// Inserts or replaces a dictionary and evicts least-recently-used entries.
    pub fn insert(&mut self, dictionary_id: DictionaryId, payload: Arc<Vec<u8>>) -> (result:
        TelemetryResult<DictionaryInsert>)
        requires
            old(self).well_formed(),
        ensures
            final(self).well_formed(),
            final(self).capacity() == old(self).capacity(),
            ({
                let before = old(self).residents();
                let unchanged = final(self).residents() == before && final(self).now() == old(
                    self,
                ).now();
                match result {
                    Err(TelemetryError::EmptyDictionary) => payload@.len() == 0 && unchanged,
                    Err(TelemetryError::DictionaryTooLarge { bytes, capacity }) => {
                        &&& payload@.len() > old(self).capacity()
                        &&& bytes == payload@.len()
                        &&& capacity == old(self).capacity()
                        &&& unchanged
                    },
                    Err(TelemetryError::DictionaryIdConflict(id)) => {
                        &&& 0 < payload@.len() <= old(self).capacity()
                        &&& id == dictionary_id
                        &&& exists|i: int|
                            0 <= i < before.len() && (#[trigger] before[i]).dictionary_id
                                == dictionary_id && before[i].payload@ != payload@
                        &&& unchanged
                    },
                    Err(_) => false,
                    Ok(inserted) => {
                        let now = old(self).now().wrapping_add(1);
                        let added = CachedDictionary { dictionary_id, payload, last_used: now };
                        let (kept, gone) = evict(
                            without(before, dictionary_id).push(added),
                            old(self).capacity() as nat,
                        );
                        &&& 0 < payload@.len() <= old(self).capacity()
                        &&& forall|i: int|
                            0 <= i < before.len() && (#[trigger] before[i]).dictionary_id
                                == dictionary_id ==> before[i].payload@ == payload@
                        &&& inserted.dictionary_id == dictionary_id
                        &&& inserted.evicted@ == gone
                        &&& final(self).residents() == kept
                        &&& final(self).now() == now
                    },
                }
            }),
            old(self).in_step() && old(self).now() < u64::MAX ==> final(self).in_step() && (
            result is Ok ==> resident(final(self).residents(), dictionary_id)),
    {
        if payload.len() == 0 {
            return Err(TelemetryError::EmptyDictionary);
        }
        if payload.len() > self.capacity_bytes {
            return Err(
                TelemetryError::DictionaryTooLarge {
                    bytes: payload.len(),
                    capacity: self.capacity_bytes,
                },
            );
        }
        let ghost before = self.entries@;
        let position = self.find(dictionary_id);
        if let Some(index) = position {
            if !same_bytes(self.entries[index].payload.as_slice(), payload.as_slice()) {
                assert(before[index as int].payload@ != payload@);
                return Err(TelemetryError::DictionaryIdConflict(dictionary_id));
            }
        }
        let ghost size = payload@.len();
        let mut total: u128 = self.stored_bytes as u128;
        if let Some(index) = position {
            proof {
                lemma_resident_bytes_remove(before, index as int);
                let chosen = choose|i: int|
                    0 <= i < before.len() && (#[trigger] before[i]).dictionary_id
                        == dictionary_id;
                assert(before[index as int].dictionary_id == dictionary_id);
                if chosen < index {
                    assert(before[chosen].dictionary_id != before[index as int].dictionary_id);
                } else if index < chosen {
                    assert(before[index as int].dictionary_id != before[chosen].dictionary_id);
                }
            }
            let previous = self.entries.remove(index);
            total = total - previous.payload.len() as u128;
        }
        assert(self.entries@ == without(before, dictionary_id));
        assert(total == resident_bytes(self.entries@));
        assert(distinct_ids(self.entries@));
        assert(!resident(self.entries@, dictionary_id));
        self.clock = self.clock.wrapping_add(1);
        total = total + payload.len() as u128;
        let ghost shorter = self.entries@;
        self.entries.push(CachedDictionary { dictionary_id, payload, last_used: self.clock });
        assert(self.entries@.drop_last() =~= shorter);
        assert(total == resident_bytes(self.entries@));
        let ghost start = self.entries@;
        proof {
            assert forall|i: int, j: int| 0 <= i < j < start.len() implies (
            #[trigger] start[i]).dictionary_id != (#[trigger] start[j]).dictionary_id by {
                if j == start.len() - 1 {
                    assert(start[i] == shorter[i]);
                } else {
                    assert(start[i] == shorter[i] && start[j] == shorter[j]);
                }
            }
            eviction_fits(start, self.capacity_bytes as nat);
        }
        let capacity: usize = self.capacity_bytes;
        let mut evicted: Vec<DictionaryId> = Vec::new();
        while total > capacity as u128
            invariant
                self.capacity_bytes == capacity,
                self.clock == old(self).clock.wrapping_add(1),
                total == resident_bytes(self.entries@),
                evict(start, capacity as nat).0 == evict(self.entries@, capacity as nat).0,
                evict(start, capacity as nat).1 == evicted@ + evict(
                    self.entries@,
                    capacity as nat,
                ).1,
            decreases self.entries@.len(),
        {
            proof {
                if self.entries@.len() == 0 {
                    assert(resident_bytes(self.entries@) == 0);
                }
            }
            let index = self.oldest();
            let ghost current = self.entries@;
            let ghost done = evicted@;
            proof {
                let chosen = choose|i: int| least_recent(current, i);
                lemma_least_recent_unique(current, index as int, chosen);
                lemma_resident_bytes_remove(current, index as int);
            }
            let entry = self.entries.remove(index);
            total = total - entry.payload.len() as u128;
            evicted.push(entry.dictionary_id);
            assert(evicted@ + evict(self.entries@, capacity as nat).1 =~= done + evict(
                current,
                capacity as nat,
            ).1);
        }
        self.stored_bytes = total as usize;
        proof {
            if old(self).in_step() && old(self).now() < u64::MAX {
                let latest = start.len() - 1;
                assert forall|i: int| 0 <= i < shorter.len() implies (
                #[trigger] shorter[i]).last_used <= old(self).clock by {
                    lemma_without_members(before, dictionary_id, i);
                }
                assert forall|i: int| 0 <= i < start.len() && i != latest implies (
                #[trigger] start[i]).last_used < start[latest].last_used by {
                    assert(start[i] == shorter[i]);
                }
                eviction_keeps_the_latest_entry(start, capacity as nat, latest);
                let kept = evict(start, capacity as nat).0;
                let place = choose|i: int| 0 <= i < kept.len() && kept[i] == start[latest];
                assert(kept[place].dictionary_id == dictionary_id);
                assert forall|i: int| 0 <= i < kept.len() implies (#[trigger] kept[i]).last_used
                    <= self.clock by {
                    assert(start.contains(kept[i]));
                    let from = choose|from: int| 0 <= from < start.len() && start[from] == kept[i];
                    assert(start[from].last_used <= start[latest].last_used);
                }
            }
        }
        Ok(DictionaryInsert { dictionary_id, evicted })
    }

    /// Returns a dictionary payload and refreshes its LRU position.
    pub fn get(&mut self, dictionary_id: DictionaryId) -> (payload: Option<Arc<Vec<u8>>>)
        requires
            old(self).well_formed(),
        ensures
            final(self).well_formed(),
            final(self).capacity() == old(self).capacity(),
            final(self).now() == old(self).now().wrapping_add(1),
            ({
                let before = old(self).residents();
                let after = final(self).residents();
                match payload {
                    None => !resident(before, dictionary_id) && after == before,
                    Some(bytes) => exists|i: int|
                        0 <= i < before.len() && (#[trigger] before[i]).dictionary_id
                            == dictionary_id && before[i].payload == bytes && after
                            == before.update(
                            i,
                            CachedDictionary { last_used: final(self).now(), ..before[i] },
                        ),
                }
            }),
            old(self).in_step() && old(self).now() < u64::MAX ==> final(self).in_step()
                && used_last(final(self).residents(), dictionary_id, final(self).now()),
    {
        self.clock = self.clock.wrapping_add(1);
        match self.find(dictionary_id) {
            None => None,
            Some(index) => {
                let ghost before = self.entries@;
                let clock: u64 = self.clock;
                let payload = share(&self.entries[index].payload);
                self.entries[index].last_used = clock;
                proof {
                    let after = self.entries@;
                    assert(after =~= before.update(
                        index as int,
                        CachedDictionary { last_used: clock, ..before[index as int] },
                    ));
                    lemma_resident_bytes_remove(before, index as int);
                    lemma_resident_bytes_remove(after, index as int);
                    assert(before.remove(index as int) =~= after.remove(index as int));
                    assert forall|i: int, j: int| 0 <= i < j < after.len() implies (
                    #[trigger] after[i]).dictionary_id != (#[trigger] after[j]).dictionary_id by {
                        assert(before[i].dictionary_id == after[i].dictionary_id);
                        assert(before[j].dictionary_id == after[j].dictionary_id);
                    }
                    assert(before[index as int].dictionary_id == dictionary_id);
                }
                Some(payload)
            },
        }
    }

    /// Returns whether a dictionary is resident without changing recency.
    pub fn contains(&self, dictionary_id: DictionaryId) -> (found: bool)
        ensures
            found == resident(self.residents(), dictionary_id),
    {
        match self.find(dictionary_id) {
            Some(index) => {
                assert(self.residents()[index as int].dictionary_id == dictionary_id);
                true
            },
            None => false,
        }
    }
}

} // verus!
