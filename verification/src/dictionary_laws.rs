//! What a dictionary cache lets go.

use vstd::prelude::*;

use crate::dictionary::{
    distinct_ids, evict, least_recent, resident, resident_bytes, without, CachedDictionary,
    DictionaryId,
};

verus! {

/// The bytes of a cache are those of its dictionaries: an empty one has none, one
/// dictionary has its own, and two parts have the sum.
pub proof fn resident_bytes_add_up(
    left: Seq<CachedDictionary>,
    right: Seq<CachedDictionary>,
    entry: CachedDictionary,
)
    ensures
        resident_bytes(Seq::<CachedDictionary>::empty()) == 0,
        resident_bytes(seq![entry]) == entry.payload@.len(),
        resident_bytes(left + right) == resident_bytes(left) + resident_bytes(right),
    decreases right.len(),
{
    assert(seq![entry].drop_last() =~= Seq::<CachedDictionary>::empty());
    assert(seq![entry].last() == entry);
    if right.len() == 0 {
        assert(left + right =~= left);
    } else {
        resident_bytes_add_up(left, right.drop_last(), entry);
        assert((left + right).drop_last() =~= left + right.drop_last());
    }
}

proof fn lemma_removed(entries: Seq<CachedDictionary>, position: int)
    requires
        0 <= position < entries.len(),
    ensures
        resident_bytes(entries) == resident_bytes(entries.remove(position))
            + entries[position].payload@.len(),
{
    let (front, back) = (entries.take(position), entries.skip(position + 1));
    let one = seq![entries[position]];
    assert(entries =~= front + one + back);
    assert(entries.remove(position) =~= front + back);
    resident_bytes_add_up(front + one, back, entries[position]);
    resident_bytes_add_up(front, one, entries[position]);
    resident_bytes_add_up(front, back, entries[position]);
}

/// A cache that fits loses nothing.
pub proof fn fitting_caches_keep_everything(entries: Seq<CachedDictionary>, capacity: nat)
    requires
        resident_bytes(entries) <= capacity,
    ensures
        evict(entries, capacity).0 == entries,
        evict(entries, capacity).1.len() == 0,
{
}

/// No dictionary leaves without need: the one that left last would not have fitted
/// beside those that stay.
pub proof fn eviction_stops_when_the_rest_fits(entries: Seq<CachedDictionary>, capacity: nat)
    requires
        evict(entries, capacity).1.len() > 0,
    ensures
        exists|i: int|
            0 <= i < entries.len() && (#[trigger] entries[i]).dictionary_id == evict(
                entries,
                capacity,
            ).1.last() && resident_bytes(evict(entries, capacity).0) + entries[i].payload@.len()
                > capacity,
    decreases entries.len(),
{
    let oldest = choose|i: int| least_recent(entries, i);
    assert(0 <= oldest < entries.len() && resident_bytes(entries) > capacity);
    let rest = entries.remove(oldest);
    let (kept, later) = evict(rest, capacity);
    assert(evict(entries, capacity).0 == kept);
    assert(evict(entries, capacity).1 == seq![entries[oldest].dictionary_id] + later);
    if later.len() == 0 {
        assert(kept == rest) by {
            if resident_bytes(rest) > capacity && rest.len() > 0 {
                let next = choose|i: int| least_recent(rest, i);
                if 0 <= next < rest.len() {
                    let (_, gone) = evict(rest.remove(next), capacity);
                    assert((seq![rest[next].dictionary_id] + gone).len() > 0);
                }
            }
        }
        lemma_removed(entries, oldest);
        assert(entries[oldest].dictionary_id == evict(entries, capacity).1.last());
    } else {
        eviction_stops_when_the_rest_fits(rest, capacity);
        let i = choose|i: int|
            0 <= i < rest.len() && (#[trigger] rest[i]).dictionary_id == later.last()
                && resident_bytes(kept) + rest[i].payload@.len() > capacity;
        let from = if i < oldest {
            i
        } else {
            i + 1
        };
        assert(entries[from] == rest[i]);
        assert(evict(entries, capacity).1.last() == later.last());
    }
}

/// A dictionary of the cache stays or is told to have left.
pub proof fn evicted_dictionaries_are_told(
    entries: Seq<CachedDictionary>,
    capacity: nat,
    place: int,
)
    requires
        0 <= place < entries.len(),
    ensures
        evict(entries, capacity).0.contains(entries[place]) || evict(
            entries,
            capacity,
        ).1.contains(entries[place].dictionary_id),
    decreases entries.len(),
{
    let oldest = choose|i: int| least_recent(entries, i);
    if resident_bytes(entries) > capacity && 0 <= oldest < entries.len() {
        let rest = entries.remove(oldest);
        let (kept, later) = evict(rest, capacity);
        let told = seq![entries[oldest].dictionary_id] + later;
        assert(evict(entries, capacity).1 == told);
        if place == oldest {
            assert(told[0] == entries[place].dictionary_id);
        } else {
            let to = if place < oldest {
                place
            } else {
                place - 1
            };
            assert(rest[to] == entries[place]);
            evicted_dictionaries_are_told(rest, capacity, to);
            if later.contains(entries[place].dictionary_id) {
                let at = choose|i: int|
                    0 <= i < later.len() && later[i] == entries[place].dictionary_id;
                assert(told[at + 1] == entries[place].dictionary_id);
            }
        }
    } else {
        assert(evict(entries, capacity).0 == entries);
    }
}

/// Taking a dictionary out leaves the others, in their order, and it is gone.
pub proof fn others_stay_without_one(entries: Seq<CachedDictionary>, id: DictionaryId, place: int)
    requires
        distinct_ids(entries),
        0 <= place < entries.len(),
    ensures
        !resident(without(entries, id), id),
        entries[place].dictionary_id != id ==> without(entries, id).contains(entries[place]),
        without(entries, id).len() == entries.len() - if resident(entries, id) {
            1int
        } else {
            0int
        },
{
    if resident(entries, id) {
        let position = choose|i: int|
            0 <= i < entries.len() && (#[trigger] entries[i]).dictionary_id == id;
        let rest = entries.remove(position);
        assert(without(entries, id) == rest);
        if resident(rest, id) {
            let again = choose|i: int| 0 <= i < rest.len() && (#[trigger] rest[i]).dictionary_id
                == id;
            if again < position {
                assert(rest[again] == entries[again]);
                assert(entries[again].dictionary_id != entries[position].dictionary_id);
            } else {
                assert(rest[again] == entries[again + 1]);
                assert(entries[position].dictionary_id != entries[again + 1].dictionary_id);
            }
        }
        if entries[place].dictionary_id != id {
            let to = if place < position {
                place
            } else {
                place - 1
            };
            assert(rest[to] == entries[place]);
        }
    } else {
        assert(without(entries, id)[place] == entries[place]);
    }
}

} // verus!
