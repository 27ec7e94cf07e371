//! Text-to-text maps in the byte order of their keys.

use vstd::prelude::*;
use vstd::utf8::encode_utf8;

use crate::text::same_str;

verus! {

/// Whether `left` sorts strictly before `right`, byte by byte.
pub open spec fn bytes_precede(left: Seq<u8>, right: Seq<u8>) -> bool
    decreases left.len(),
{
    if right.len() == 0 {
        false
    } else if left.len() == 0 {
        true
    } else if left[0] != right[0] {
        left[0] < right[0]
    } else {
        bytes_precede(left.skip(1), right.skip(1))
    }
}

/// The byte order is total.
pub proof fn byte_order_is_total(left: Seq<u8>, right: Seq<u8>)
    ensures
        left == right || bytes_precede(left, right) || bytes_precede(right, left),
        !(bytes_precede(left, right) && bytes_precede(right, left)),
        left == right ==> !bytes_precede(left, right),
    decreases left.len(),
{
    if left.len() > 0 && right.len() > 0 && left[0] == right[0] {
        byte_order_is_total(left.skip(1), right.skip(1));
        if left.skip(1) == right.skip(1) {
            assert(left =~= seq![left[0]] + left.skip(1));
            assert(right =~= seq![right[0]] + right.skip(1));
        }
    } else if left.len() == 0 && right.len() == 0 {
        assert(left =~= right);
    }
}

/// The byte order is transitive.
pub proof fn byte_order_is_transitive(a: Seq<u8>, b: Seq<u8>, c: Seq<u8>)
    requires
        bytes_precede(a, b),
        bytes_precede(b, c),
    ensures
        bytes_precede(a, c),
    decreases a.len(),
{
    if a.len() > 0 && a[0] == b[0] && b[0] == c[0] {
        byte_order_is_transitive(a.skip(1), b.skip(1), c.skip(1));
    }
}

/// Compares two byte strings.
pub fn is_before(left: &[u8], right: &[u8]) -> (before: bool)
    ensures
        before == bytes_precede(left@, right@),
{
    let mut index: usize = 0;
    assert(left@.skip(0) =~= left@);
    assert(right@.skip(0) =~= right@);
    while index < left.len() && index < right.len()
        invariant
            index <= left@.len(),
            index <= right@.len(),
            bytes_precede(left@, right@) == bytes_precede(
                left@.skip(index as int),
                right@.skip(index as int),
            ),
        decreases left@.len() - index,
    {
        if left[index] != right[index] {
            return left[index] < right[index];
        }
        assert(left@.skip(index as int).skip(1) =~= left@.skip(index + 1));
        assert(right@.skip(index as int).skip(1) =~= right@.skip(index + 1));
        index = index + 1;
    }
    index < right.len()
}

/// Whether one key sorts strictly before another.
pub open spec fn key_precedes(left: Seq<char>, right: Seq<char>) -> bool {
    bytes_precede(encode_utf8(left), encode_utf8(right))
}

/// The key order is total.
pub proof fn key_order_is_total(left: Seq<char>, right: Seq<char>)
    ensures
        left == right || key_precedes(left, right) || key_precedes(right, left),
        !(key_precedes(left, right) && key_precedes(right, left)),
        !key_precedes(left, left),
{
    byte_order_is_total(encode_utf8(left), encode_utf8(right));
    byte_order_is_total(encode_utf8(left), encode_utf8(left));
    vstd::utf8::encode_utf8_decode_utf8(left);
    vstd::utf8::encode_utf8_decode_utf8(right);
}

/// Whether the keys of a pair list strictly increase.
pub open spec fn increasing(pairs: Seq<(Seq<char>, Seq<char>)>) -> bool {
    forall|i: int, j: int|
        0 <= i < j < pairs.len() ==> key_precedes(#[trigger] pairs[i].0, #[trigger] pairs[j].0)
}

/// The map that a pair list builds, later pairs winning.
pub open spec fn pairs_map(pairs: Seq<(Seq<char>, Seq<char>)>) -> Map<Seq<char>, Seq<char>>
    decreases pairs.len(),
{
    if pairs.len() == 0 {
        Map::empty()
    } else {
        pairs_map(pairs.drop_last()).insert(pairs.last().0, pairs.last().1)
    }
}

/// Key and value of one stored pair.
pub open spec fn pair_view(pair: (String, String)) -> (Seq<char>, Seq<char>) {
    (pair.0@, pair.1@)
}

/// Keys and values of stored pairs.
pub open spec fn pair_views(pairs: Seq<(String, String)>) -> Seq<(Seq<char>, Seq<char>)> {
    pairs.map_values(|pair: (String, String)| pair_view(pair))
}

/// What an increasing pair list maps.
pub proof fn lemma_pairs_map(pairs: Seq<(Seq<char>, Seq<char>)>)
    requires
        increasing(pairs),
    ensures
        forall|i: int|
            0 <= i < pairs.len() ==> #[trigger] pairs_map(pairs).contains_key(pairs[i].0)
                && pairs_map(pairs)[pairs[i].0] == pairs[i].1,
        forall|key: Seq<char>| #[trigger]
            pairs_map(pairs).contains_key(key) ==> exists|i: int|
                0 <= i < pairs.len() && pairs[i].0 == key,
    decreases pairs.len(),
{
    if pairs.len() > 0 {
        let shorter = pairs.drop_last();
        assert(increasing(shorter)) by {
            assert forall|i: int, j: int| 0 <= i < j < shorter.len() implies key_precedes(
                #[trigger] shorter[i].0,
                #[trigger] shorter[j].0,
            ) by {
                assert(key_precedes(pairs[i].0, pairs[j].0));
            }
        }
        lemma_pairs_map(shorter);
        assert forall|i: int| 0 <= i < pairs.len() implies #[trigger] pairs_map(
            pairs,
        ).contains_key(pairs[i].0) && pairs_map(pairs)[pairs[i].0] == pairs[i].1 by {
            if i < pairs.len() - 1 {
                assert(shorter[i] == pairs[i]);
                assert(pairs_map(shorter).contains_key(shorter[i].0));
                key_order_is_total(pairs[i].0, pairs.last().0);
                assert(key_precedes(pairs[i].0, pairs[pairs.len() - 1].0));
            }
        }
        assert forall|key: Seq<char>| #[trigger] pairs_map(pairs).contains_key(key) implies exists|
            i: int,
        | 0 <= i < pairs.len() && pairs[i].0 == key by {
            if key != pairs.last().0 {
                assert(pairs_map(shorter).contains_key(key));
                let i = choose|i: int| 0 <= i < shorter.len() && shorter[i].0 == key;
                assert(pairs[i].0 == key);
            } else {
                assert(pairs[pairs.len() - 1].0 == key);
            }
        }
    }
}

/// Two increasing pair lists of one map are the same list: the order in which a
/// map is written out is fixed by what it holds.
pub proof fn map_has_one_order(
    left: Seq<(Seq<char>, Seq<char>)>,
    right: Seq<(Seq<char>, Seq<char>)>,
)
    requires
        increasing(left),
        increasing(right),
        pairs_map(left) == pairs_map(right),
    ensures
        left == right,
    decreases left.len(),
{
    lemma_pairs_map(left);
    lemma_pairs_map(right);
    if left.len() == 0 {
        if right.len() > 0 {
            assert(pairs_map(right).contains_key(right[0].0));
        }
        assert(left =~= right);
    } else {
        assert(pairs_map(left).contains_key(left[left.len() - 1].0));
        assert(right.len() > 0);
        assert(pairs_map(right).contains_key(right[right.len() - 1].0));
        let last_left = left.len() - 1;
        let last_right = right.len() - 1;
        let in_right = choose|i: int| 0 <= i < right.len() && right[i].0 == left[last_left].0;
        let in_left = choose|i: int| 0 <= i < left.len() && left[i].0 == right[last_right].0;
        if in_right < last_right {
            assert(key_precedes(right[in_right].0, right[last_right].0));
            if in_left < last_left {
                assert(key_precedes(left[in_left].0, left[last_left].0));
            }
            key_order_is_total(left[last_left].0, right[last_right].0);
        }
        assert(left.last().0 == right.last().0);
        let key = left.last().0;
        let shorter_left = left.drop_last();
        let shorter_right = right.drop_last();
        lemma_shorter(left);
        lemma_shorter(right);
        lemma_pairs_map(shorter_left);
        lemma_pairs_map(shorter_right);
        assert(pairs_map(shorter_left) =~= pairs_map(left).remove(key));
        assert(pairs_map(shorter_right) =~= pairs_map(right).remove(key));
        map_has_one_order(shorter_left, shorter_right);
        assert(left =~= shorter_left.push(left.last()));
        assert(right =~= shorter_right.push(right.last()));
    }
}

proof fn lemma_shorter(pairs: Seq<(Seq<char>, Seq<char>)>)
    requires
        increasing(pairs),
        pairs.len() > 0,
    ensures
        increasing(pairs.drop_last()),
        pairs_map(pairs.drop_last()) =~= pairs_map(pairs).remove(pairs.last().0),
{
    let shorter = pairs.drop_last();
    assert forall|i: int, j: int| 0 <= i < j < shorter.len() implies key_precedes(
        #[trigger] shorter[i].0,
        #[trigger] shorter[j].0,
    ) by {
        assert(key_precedes(pairs[i].0, pairs[j].0));
    }
    lemma_pairs_map(shorter);
    if pairs_map(shorter).contains_key(pairs.last().0) {
        let i = choose|i: int| 0 <= i < shorter.len() && shorter[i].0 == pairs.last().0;
        assert(key_precedes(pairs[i].0, pairs[pairs.len() - 1].0));
        key_order_is_total(pairs[i].0, pairs.last().0);
    }
}

/// A map from text to text, walked in the byte order of its keys.
#[derive(Debug, PartialEq, Eq)]
pub struct StringMap {
    pairs: Vec<(String, String)>,
}

impl View for StringMap {
    type V = Map<Seq<char>, Seq<char>>;

    closed spec fn view(&self) -> Map<Seq<char>, Seq<char>> {
        pairs_map(pair_views(self.pairs@))
    }
}

impl StringMap {
    #[verifier::type_invariant]
    spec fn ordered_by_key(self) -> bool {
        increasing(pair_views(self.pairs@))
    }

    /// The pairs in key order.
    pub closed spec fn ordered(self) -> Seq<(Seq<char>, Seq<char>)> {
        pair_views(self.pairs@)
    }

    /// An empty map.
    pub fn new() -> (map: Self)
        ensures
            map@ == Map::<Seq<char>, Seq<char>>::empty(),
            map.ordered() == Seq::<(Seq<char>, Seq<char>)>::empty(),
    {
        let map = Self { pairs: Vec::new() };
        assert(pair_views(map.pairs@) =~= Seq::<(Seq<char>, Seq<char>)>::empty());
        map
    }

    /// Number of keys.
    pub fn len(&self) -> (count: usize)
        ensures
            count == self.ordered().len(),
    {
        self.pairs.len()
    }

    /// The pairs in key order.
    pub fn pairs(&self) -> (pairs: &Vec<(String, String)>)
        ensures
            pair_views(pairs@) == self.ordered(),
            increasing(self.ordered()),
            pairs_map(self.ordered()) == self@,
    {
        proof {
            use_type_invariant(&*self);
        }
        &self.pairs
    }

    /// Value of one key.
    pub fn get(&self, key: &str) -> (value: Option<&String>)
        ensures
            match value {
                Some(text) => self@.contains_key(key@) && text@ == self@[key@],
                None => !self@.contains_key(key@),
            },
    {
        proof {
            use_type_invariant(&*self);
            lemma_pairs_map(pair_views(self.pairs@));
        }
        let ghost views = pair_views(self.pairs@);
        let mut index: usize = 0;
        while index < self.pairs.len()
            invariant
                views == pair_views(self.pairs@),
                forall|i: int| 0 <= i < index ==> views[i].0 != key@,
                forall|i: int|
                    0 <= i < views.len() ==> #[trigger] pairs_map(views).contains_key(views[i].0)
                        && pairs_map(views)[views[i].0] == views[i].1,
            decreases self.pairs@.len() - index,
        {
            assert(views[index as int] == pair_view(self.pairs@[index as int]));
            if same_str(self.pairs[index].0.as_str(), key) {
                assert(pairs_map(views).contains_key(views[index as int].0));
                return Some(&self.pairs[index].1);
            }
            index = index + 1;
        }
        None
    }

    /// Another map with the same pairs.
    pub fn copy(&self) -> (map: Self)
        ensures
            map@ == self@,
            map.ordered() == self.ordered(),
    {
        proof {
            use_type_invariant(&*self);
        }
        let mut pairs: Vec<(String, String)> = Vec::new();
        let mut index: usize = 0;
        while index < self.pairs.len()
            invariant
                index <= self.pairs@.len(),
                pairs@.len() == index,
                forall|i: int|
                    0 <= i < index ==> pair_view(#[trigger] pairs@[i]) == pair_view(self.pairs@[i]),
            decreases self.pairs@.len() - index,
        {
            pairs.push((self.pairs[index].0.clone(), self.pairs[index].1.clone()));
            index = index + 1;
        }
        assert(pair_views(pairs@) =~= pair_views(self.pairs@));
        Self { pairs }
    }

    /// Maps `key` to `value`, replacing what it was mapped to.
    pub fn insert(&mut self, key: String, value: String)
        ensures
            final(self)@ == old(self)@.insert(key@, value@),
    {
        proof {
            use_type_invariant(&*self);
        }
        let mut pairs: Vec<(String, String)> = Vec::new();
        std::mem::swap(&mut pairs, &mut self.pairs);
        let ghost before = pair_views(pairs@);
        let ghost pair = (key@, value@);
        let mut index: usize = 0;
        while index < pairs.len() && is_before(
            pairs[index].0.as_str().as_bytes(),
            key.as_str().as_bytes(),
        )
            invariant
                index <= pairs@.len(),
                before == pair_views(pairs@),
                forall|i: int| 0 <= i < index ==> key_precedes(#[trigger] before[i].0, key@),
            decreases pairs@.len() - index,
        {
            assert(before[index as int] == pair_view(pairs@[index as int]));
            index = index + 1;
        }
        let ghost at = index as int;
        if index < pairs.len() && same_str(pairs[index].0.as_str(), key.as_str()) {
            pairs.set(index, (key, value));
            proof {
                assert(before[at].0 == key@);
                let after = before.update(at, pair);
                assert(pair_views(pairs@) =~= after);
                lemma_replaced(before, at, pair);
            }
        } else {
            pairs.insert(index, (key, value));
            proof {
                let after = before.insert(at, pair);
                assert(pair_views(pairs@) =~= after);
                if at < before.len() {
                    assert(before[at] == pair_view(pairs@[at + 1]));
                    key_order_is_total(before[at].0, pair.0);
                }
                lemma_inserted(before, at, pair);
            }
        }
        self.pairs = pairs;
    }
}

proof fn lemma_replaced(
    before: Seq<(Seq<char>, Seq<char>)>,
    at: int,
    pair: (Seq<char>, Seq<char>),
)
    requires
        increasing(before),
        0 <= at < before.len(),
        before[at].0 == pair.0,
    ensures
        increasing(before.update(at, pair)),
        pairs_map(before.update(at, pair)) == pairs_map(before).insert(pair.0, pair.1),
{
    let after = before.update(at, pair);
    assert forall|i: int, j: int| 0 <= i < j < after.len() implies key_precedes(
        #[trigger] after[i].0,
        #[trigger] after[j].0,
    ) by {
        assert(key_precedes(before[i].0, before[j].0));
    }
    lemma_pairs_map(before);
    lemma_pairs_map(after);
    let expected = pairs_map(before).insert(pair.0, pair.1);
    let built = pairs_map(after);
    assert forall|key: Seq<char>|
        #![trigger built.dom().contains(key)]
        #![trigger expected.dom().contains(key)]
        #![trigger built[key]]
        built.dom().contains(key) == expected.dom().contains(key) && (expected.dom().contains(key)
            ==> built[key] == expected[key]) by {
        if pairs_map(after).contains_key(key) {
            let i = choose|i: int| 0 <= i < after.len() && after[i].0 == key;
            assert(pairs_map(before).contains_key(before[i].0));
            assert(pairs_map(after).contains_key(after[i].0));
            if i != at {
                key_order_is_total(after[i].0, pair.0);
                if i < at {
                    assert(key_precedes(before[i].0, before[at].0));
                } else {
                    assert(key_precedes(before[at].0, before[i].0));
                }
            }
        }
        if expected.contains_key(key) {
            if key == pair.0 {
                assert(pairs_map(after).contains_key(after[at].0));
            } else {
                let i = choose|i: int| 0 <= i < before.len() && before[i].0 == key;
                assert(after[i].0 == key);
                assert(pairs_map(after).contains_key(after[i].0));
            }
        }
    }
    assert(built.dom() =~= expected.dom());
    assert(built =~= expected);
}

proof fn lemma_inserted(
    before: Seq<(Seq<char>, Seq<char>)>,
    at: int,
    pair: (Seq<char>, Seq<char>),
)
    requires
        increasing(before),
        0 <= at <= before.len(),
        forall|i: int| 0 <= i < at ==> key_precedes(#[trigger] before[i].0, pair.0),
        at < before.len() ==> key_precedes(pair.0, before[at].0),
    ensures
        increasing(before.insert(at, pair)),
        pairs_map(before.insert(at, pair)) == pairs_map(before).insert(pair.0, pair.1),
{
    let after = before.insert(at, pair);
    assert forall|i: int| at <= i < before.len() implies key_precedes(
        pair.0,
        #[trigger] before[i].0,
    ) by {
        if i > at {
            assert(key_precedes(before[at].0, before[i].0));
            byte_order_is_transitive(
                encode_utf8(pair.0),
                encode_utf8(before[at].0),
                encode_utf8(before[i].0),
            );
        }
    }
    assert forall|i: int, j: int| 0 <= i < j < after.len() implies key_precedes(
        #[trigger] after[i].0,
        #[trigger] after[j].0,
    ) by {
        let from_i = if i < at {
            i
        } else {
            i - 1
        };
        let from_j = if j < at {
            j
        } else {
            j - 1
        };
        if i != at {
            assert(after[i] == before[from_i]);
        }
        if j != at {
            assert(after[j] == before[from_j]);
        }
        if i != at && j != at {
            assert(key_precedes(before[from_i].0, before[from_j].0));
        }
    }
    lemma_pairs_map(before);
    lemma_pairs_map(after);
    let expected = pairs_map(before).insert(pair.0, pair.1);
    let built = pairs_map(after);
    assert forall|key: Seq<char>|
        #![trigger built.dom().contains(key)]
        #![trigger expected.dom().contains(key)]
        #![trigger built[key]]
        built.dom().contains(key) == expected.dom().contains(key) && (expected.dom().contains(key)
            ==> built[key] == expected[key]) by {
        if pairs_map(after).contains_key(key) {
            let i = choose|i: int| 0 <= i < after.len() && after[i].0 == key;
            assert(pairs_map(after).contains_key(after[i].0));
            if i != at {
                let from = if i < at {
                    i
                } else {
                    i - 1
                };
                assert(after[i] == before[from]);
                assert(pairs_map(before).contains_key(before[from].0));
                key_order_is_total(before[from].0, pair.0);
            }
        }
        if expected.contains_key(key) {
            if key == pair.0 {
                assert(pairs_map(after).contains_key(after[at].0));
            } else {
                let i = choose|i: int| 0 <= i < before.len() && before[i].0 == key;
                let to = if i < at {
                    i
                } else {
                    i + 1
                };
                assert(after[to] == before[i]);
                assert(pairs_map(after).contains_key(after[to].0));
            }
        }
    }
    assert(built.dom() =~= expected.dom());
    assert(built =~= expected);
}

} // verus!
