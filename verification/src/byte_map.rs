//! Maps from byte strings, kept in byte order.

use vstd::prelude::*;

use crate::string_map::{
    byte_order_is_total, byte_order_is_transitive, bytes_precede, is_before,
};

verus! {

/// Whether keys stand in byte order, each once.
pub open spec fn rising<V>(listed: Seq<(Seq<u8>, V)>) -> bool {
    forall|i: int, j: int|
        0 <= i < j < listed.len() ==> bytes_precede(#[trigger] listed[i].0, #[trigger] listed[j].0)
}

/// Whether a key is listed.
pub open spec fn lists<V>(listed: Seq<(Seq<u8>, V)>, key: Seq<u8>) -> bool {
    exists|place: int| 0 <= place < listed.len() && #[trigger] listed[place].0 == key
}

/// The map that entries list.
pub open spec fn map_of<V>(listed: Seq<(Seq<u8>, V)>) -> Map<Seq<u8>, V> {
    Map::new(
        |key: Seq<u8>| lists(listed, key),
        |key: Seq<u8>|
            listed[choose|place: int| 0 <= place < listed.len() && #[trigger] listed[place].0 == key].1,
    )
}

/// Entries with the bytes of their keys.
pub open spec fn entry_views<V>(entries: Seq<(Vec<u8>, V)>) -> Seq<(Seq<u8>, V)> {
    Seq::new(entries.len(), |i: int| (entries[i].0@, entries[i].1))
}

/// Each listed entry is an entry of the map.
pub proof fn lemma_listed<V>(listed: Seq<(Seq<u8>, V)>, place: int)
    requires
        rising(listed),
        0 <= place < listed.len(),
    ensures
        map_of(listed).dom().contains(listed[place].0),
        map_of(listed)[listed[place].0] == listed[place].1,
        forall|other: int|
            0 <= other < listed.len() && #[trigger] listed[other].0 == listed[place].0 ==> other == place,
{
    assert forall|other: int|
        0 <= other < listed.len() && #[trigger] listed[other].0 == listed[place].0 implies other
        == place by {
        byte_order_is_total(listed[place].0, listed[place].0);
        if other < place {
            assert(bytes_precede(listed[other].0, listed[place].0));
        } else if other > place {
            assert(bytes_precede(listed[place].0, listed[other].0));
        }
    }
    assert(lists(listed, listed[place].0));
}

proof fn lemma_placed<V>(listed: Seq<(Seq<u8>, V)>, place: int, key: Seq<u8>, value: V)
    requires
        rising(listed),
        0 <= place <= listed.len(),
        forall|i: int| 0 <= i < place ==> bytes_precede(#[trigger] listed[i].0, key),
        forall|i: int| place <= i < listed.len() ==> bytes_precede(key, #[trigger] listed[i].0),
    ensures
        rising(listed.insert(place, (key, value))),
        map_of(listed.insert(place, (key, value))) == map_of(listed).insert(key, value),
{
    let longer = listed.insert(place, (key, value));
    assert forall|i: int, j: int| 0 <= i < j < longer.len() implies bytes_precede(
        #[trigger] longer[i].0,
        #[trigger] longer[j].0,
    ) by {
        let from = if i < place {
            i
        } else {
            i - 1
        };
        let to = if j < place {
            j
        } else {
            j - 1
        };
        if i != place {
            assert(longer[i] == listed[from]);
        }
        if j != place {
            assert(longer[j] == listed[to]);
        }
    }
    lemma_listed(longer, place);
    assert(longer[place].0 == key);
    assert forall|other: Seq<u8>| #[trigger] map_of(longer).dom().contains(other) <==> map_of(
        listed,
    ).insert(key, value).dom().contains(other) by {
        if lists(longer, other) {
            let at = choose|at: int| 0 <= at < longer.len() && #[trigger] longer[at].0 == other;
            if at < place {
                assert(listed[at].0 == other);
            } else if at > place {
                assert(listed[at - 1].0 == other);
            }
        }
        if lists(listed, other) {
            let at = choose|at: int| 0 <= at < listed.len() && #[trigger] listed[at].0 == other;
            if at < place {
                assert(longer[at].0 == other);
            } else {
                assert(longer[at + 1].0 == other);
            }
        }
    }
    assert forall|other: Seq<u8>| #[trigger] map_of(longer).dom().contains(other) implies map_of(
        longer,
    )[other] == map_of(listed).insert(key, value)[other] by {
        let at = choose|at: int| 0 <= at < longer.len() && #[trigger] longer[at].0 == other;
        lemma_listed(longer, at);
        if at < place {
            assert(listed[at] == longer[at]);
            lemma_listed(listed, at);
        } else if at > place {
            assert(listed[at - 1] == longer[at]);
            lemma_listed(listed, at - 1);
        }
        if other == key {
            lemma_listed(longer, place);
        }
    }
    assert(map_of(longer) =~= map_of(listed).insert(key, value));
}

proof fn lemma_replaced<V>(listed: Seq<(Seq<u8>, V)>, place: int, value: V)
    requires
        rising(listed),
        0 <= place < listed.len(),
    ensures
        rising(listed.update(place, (listed[place].0, value))),
        map_of(listed.update(place, (listed[place].0, value))) == map_of(listed).insert(
            listed[place].0,
            value,
        ),
{
    let key = listed[place].0;
    let changed = listed.update(place, (key, value));
    assert forall|i: int, j: int| 0 <= i < j < changed.len() implies bytes_precede(
        #[trigger] changed[i].0,
        #[trigger] changed[j].0,
    ) by {
        assert(changed[i].0 == listed[i].0 && changed[j].0 == listed[j].0);
    }
    assert forall|other: Seq<u8>| #[trigger] map_of(changed).dom().contains(other) <==> map_of(
        listed,
    ).insert(key, value).dom().contains(other) by {
        if lists(changed, other) {
            let at = choose|at: int| 0 <= at < changed.len() && #[trigger] changed[at].0 == other;
            assert(listed[at].0 == other);
        }
        if lists(listed, other) {
            let at = choose|at: int| 0 <= at < listed.len() && #[trigger] listed[at].0 == other;
            assert(changed[at].0 == other);
        }
        assert(changed[place].0 == key);
    }
    assert forall|other: Seq<u8>| #[trigger] map_of(changed).dom().contains(other) implies map_of(
        changed,
    )[other] == map_of(listed).insert(key, value)[other] by {
        let at = choose|at: int| 0 <= at < changed.len() && #[trigger] changed[at].0 == other;
        lemma_listed(changed, at);
        lemma_listed(listed, at);
        lemma_listed(changed, place);
    }
    assert(map_of(changed) =~= map_of(listed).insert(key, value));
}

/// A map from byte strings.
#[derive(Debug)]
pub struct ByteMap<V> {
    entries: Vec<(Vec<u8>, V)>,
}

impl<V> View for ByteMap<V> {
    type V = Map<Seq<u8>, V>;

    open spec fn view(&self) -> Map<Seq<u8>, V> {
        map_of(self.listed())
    }
}

impl<V> ByteMap<V> {
    #[verifier::type_invariant]
    spec fn in_byte_order(self) -> bool {
        rising(entry_views(self.entries@))
    }

    /// The entries in byte order of their keys.
    pub closed spec fn listed(self) -> Seq<(Seq<u8>, V)> {
        entry_views(self.entries@)
    }

    /// An empty map.
    pub fn new() -> (map: Self)
        ensures
            map@ == Map::<Seq<u8>, V>::empty(),
            map.listed() == Seq::<(Seq<u8>, V)>::empty(),
    {
        let map = Self { entries: Vec::new() };
        proof {
            assert(map.listed() =~= Seq::<(Seq<u8>, V)>::empty());
            assert(map@ =~= Map::<Seq<u8>, V>::empty());
        }
        map
    }

    /// Number of entries.
    pub fn len(&self) -> (count: usize)
        ensures
            count == self.listed().len(),
    {
        self.entries.len()
    }

    /// The entries in byte order.
    pub fn entries(&self) -> (entries: &Vec<(Vec<u8>, V)>)
        ensures
            entry_views(entries@) == self.listed(),
            rising(self.listed()),
            self@ == map_of(self.listed()),
    {
        proof {
            use_type_invariant(self);
        }
        &self.entries
    }

    /// Looks a key up.
    pub fn get(&self, key: &[u8]) -> (value: Option<&V>)
        ensures
            match value {
                Some(value) => self@.dom().contains(key@) && self@[key@] == *value,
                None => !self@.dom().contains(key@),
            },
    {
        proof {
            use_type_invariant(self);
        }
        match find(&self.entries, key) {
            Ok(place) => {
                proof {
                    lemma_listed(self.listed(), place as int);
                }
                Some(&self.entries[place].1)
            },
            Err(_) => None,
        }
    }

    /// Sets the value of a key.
    pub fn insert(&mut self, key: Vec<u8>, value: V)
        ensures
            final(self)@ == old(self)@.insert(key@, value),
    {
        proof {
            use_type_invariant(&*self);
        }
        let mut entries: Vec<(Vec<u8>, V)> = Vec::new();
        std::mem::swap(&mut entries, &mut self.entries);
        let ghost before = entry_views(entries@);
        match find(&entries, key.as_slice()) {
            Ok(place) => {
                proof {
                    lemma_replaced(before, place as int, value);
                }
                entries.set(place, (key, value));
                assert(entry_views(entries@) =~= before.update(
                    place as int,
                    (before[place as int].0, value),
                ));
            },
            Err(place) => {
                proof {
                    lemma_placed(before, place as int, key@, value);
                }
                entries.insert(place, (key, value));
                assert(entry_views(entries@) =~= before.insert(place as int, (key@, value)));
            },
        }
        self.entries = entries;
    }
}

/// Finds the place of a key, or where it would stand.
fn find<V>(entries: &Vec<(Vec<u8>, V)>, key: &[u8]) -> (place: Result<usize, usize>)
    requires
        rising(entry_views(entries@)),
    ensures
        ({
            let listed = entry_views(entries@);
            match place {
                Ok(place) => place < listed.len() && listed[place as int].0 == key@,
                Err(place) => place <= listed.len() && !lists(listed, key@) && (forall|i: int|
                    0 <= i < place ==> bytes_precede(#[trigger] listed[i].0, key@)) && (forall|i: int|
                    place <= i < listed.len() ==> bytes_precede(key@, #[trigger] listed[i].0)),
            }
        }),
{
    let ghost listed = entry_views(entries@);
    let mut low: usize = 0;
    let mut high: usize = entries.len();
    while low < high
        invariant
            low <= high <= entries@.len(),
            listed == entry_views(entries@),
            rising(listed),
            forall|i: int| 0 <= i < low ==> bytes_precede(#[trigger] listed[i].0, key@),
            forall|i: int| high <= i < listed.len() ==> bytes_precede(key@, #[trigger] listed[i].0),
        decreases high - low,
    {
        let middle = low + (high - low) / 2;
        assert(listed[middle as int].0 == entries@[middle as int].0@);
        if is_before(entries[middle].0.as_slice(), key) {
            assert forall|i: int| 0 <= i < middle + 1 implies bytes_precede(
                #[trigger] listed[i].0,
                key@,
            ) by {
                if i < middle {
                    byte_order_is_transitive(listed[i].0, listed[middle as int].0, key@);
                }
            }
            low = middle + 1;
        } else if is_before(key, entries[middle].0.as_slice()) {
            assert forall|i: int| middle <= i < listed.len() implies bytes_precede(
                key@,
                #[trigger] listed[i].0,
            ) by {
                if i > middle {
                    byte_order_is_transitive(key@, listed[middle as int].0, listed[i].0);
                }
            }
            high = middle;
        } else {
            proof {
                byte_order_is_total(listed[middle as int].0, key@);
            }
            return Ok(middle);
        }
    }
    assert(!lists(listed, key@)) by {
        byte_order_is_total(key@, key@);
    }
    Err(low)
}

impl<T> ByteMap<Vec<T>> {
    /// Appends an item to the items of a key.
    pub fn append(&mut self, key: &[u8], item: T)
        ensures
            final(self)@.dom() == old(self)@.dom().insert(key@),
            forall|other: Seq<u8>|
                other != key@ && #[trigger] old(self)@.dom().contains(other)
                    ==> final(self)@[other] == old(self)@[other],
            final(self)@[key@]@ == if old(self)@.dom().contains(key@) {
                old(self)@[key@]@.push(item)
            } else {
                seq![item]
            },
    {
        proof {
            use_type_invariant(&*self);
        }
        let mut entries: Vec<(Vec<u8>, Vec<T>)> = Vec::new();
        std::mem::swap(&mut entries, &mut self.entries);
        let ghost before = entry_views(entries@);
        match find(&entries, key) {
            Ok(place) => {
                entries[place].1.push(item);
                proof {
                    lemma_listed(before, place as int);
                    lemma_replaced(before, place as int, entries@[place as int].1);
                    assert(entry_views(entries@) =~= before.update(
                        place as int,
                        (before[place as int].0, entries@[place as int].1),
                    ));
                }
            },
            Err(place) => {
                let mut items: Vec<T> = Vec::new();
                items.push(item);
                let owned = vstd::slice::slice_to_vec(key);
                proof {
                    lemma_placed(before, place as int, key@, items);
                    assert(items@ =~= seq![item]);
                }
                entries.insert(place, (owned, items));
                assert(entry_views(entries@) =~= before.insert(place as int, (key@, items)));
            },
        }
        self.entries = entries;
        assert(self@.dom() =~= old(self)@.dom().insert(key@));
    }
}

} // verus!
