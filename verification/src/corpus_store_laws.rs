//! Which records of a corpus stand together.

use vstd::prelude::*;

use crate::corpus_store::{
    batch_of, finished, packed, packing, places_of, size_at, TRACE_BATCH_RECORDS,
};

verus! {

/// The places of a key are those at which it stands, in rising order.
pub proof fn places_hold_their_key(keys: Seq<Seq<u8>>, key: Seq<u8>, place: usize)
    requires
        keys.len() <= usize::MAX,
    ensures
        places_of(keys, key).contains(place) <==> place < keys.len() && keys[place as int] == key,
        forall|i: int, j: int|
            0 <= i < j < places_of(keys, key).len() ==> (#[trigger] places_of(keys, key)[i]) < (
            #[trigger] places_of(keys, key)[j]),
        forall|i: int|
            0 <= i < places_of(keys, key).len() ==> (#[trigger] places_of(keys, key)[i])
                < keys.len(),
    decreases keys.len(),
{
    if keys.len() > 0 {
        let earlier = keys.drop_last();
        let last = keys.len() - 1;
        places_hold_their_key(earlier, key, place);
        let before = places_of(earlier, key);
        let after = places_of(keys, key);
        if keys[last] == key {
            assert(after == before.push(last as usize));
            if before.contains(place) {
                let i = choose|i: int| 0 <= i < before.len() && before[i] == place;
                assert(after[i] == place);
            }
            if place == last {
                assert(after[before.len() as int] == place);
            }
            if after.contains(place) {
                let i = choose|i: int| 0 <= i < after.len() && after[i] == place;
                if i < before.len() {
                    assert(before[i] == place);
                }
            }
        }
    }
}

/// Lists one after the other.
pub open spec fn joined(lists: Seq<Seq<usize>>) -> Seq<usize>
    decreases lists.len(),
{
    if lists.len() == 0 {
        Seq::empty()
    } else {
        joined(lists.drop_last()) + lists.last()
    }
}

proof fn lemma_packed(groups: Seq<Seq<usize>>, sizes: Seq<usize>)
    ensures
        ({
            let packing = packing(groups, sizes);
            joined(packing.blocks) + packing.block == joined(groups)
        }),
    decreases groups.len(),
{
    let after = packing(groups, sizes);
    if groups.len() == 0 {
        assert(joined(after.blocks) + after.block =~= joined(groups));
    } else {
        lemma_packed(groups.drop_last(), sizes);
        let before = packing(groups.drop_last(), sizes);
        let group = groups.last();
        if after.blocks != before.blocks {
            assert(after.blocks == before.blocks.push(before.block));
            assert(after.blocks.drop_last() =~= before.blocks);
            assert(joined(after.blocks) == joined(before.blocks) + before.block);
        } else if after.block == before.block + group {
            assert(joined(after.blocks) + (before.block + group) =~= joined(before.blocks)
                + before.block + group);
        } else {
            assert(after.blocks.len() == before.blocks.len() + 1);
        }
    }
}

/// Blocks leave no record out, hold none twice and keep the order of the groups.
pub proof fn blocks_hold_all_groups(groups: Seq<Seq<usize>>, sizes: Seq<usize>)
    ensures
        joined(finished(packing(groups, sizes))) == joined(groups),
{
    lemma_packed(groups, sizes);
    let packing = packing(groups, sizes);
    if packing.block.len() > 0 {
        assert(packing.blocks.push(packing.block).drop_last() =~= packing.blocks);
    } else {
        assert(joined(packing.blocks) + packing.block =~= joined(packing.blocks));
    }
}

proof fn lemma_sizes(sizes: Seq<usize>, left: Seq<usize>, right: Seq<usize>)
    ensures
        0 <= size_at(sizes, left) <= usize::MAX,
        size_at(sizes, left + right) == if size_at(sizes, left) + size_at(sizes, right)
            > usize::MAX {
            usize::MAX as int
        } else {
            size_at(sizes, left) + size_at(sizes, right)
        },
    decreases left.len() + right.len(),
{
    if left.len() > 0 {
        lemma_sizes(sizes, left.drop_last(), Seq::empty());
    }
    if right.len() == 0 {
        assert(left + right =~= left);
    } else {
        lemma_sizes(sizes, left, right.drop_last());
        lemma_sizes(sizes, right.drop_last(), Seq::empty());
        assert((left + right).drop_last() =~= left + right.drop_last());
    }
}

spec fn is_bounded(block: Seq<usize>, groups: Seq<Seq<usize>>, sizes: Seq<usize>) -> bool {
    size_at(sizes, block) <= 8_388_608 || groups.contains(block)
}

proof fn lemma_bounded(groups: Seq<Seq<usize>>, sizes: Seq<usize>)
    ensures
        ({
            let packing = packing(groups, sizes);
            &&& packing.bytes == size_at(sizes, packing.block)
            &&& is_bounded(packing.block, groups, sizes)
            &&& forall|i: int|
                0 <= i < packing.blocks.len() ==> is_bounded(
                    #[trigger] packing.blocks[i],
                    groups,
                    sizes,
                ) && packing.blocks[i].len() > 0
        }),
    decreases groups.len(),
{
    if groups.len() > 0 {
        let earlier = groups.drop_last();
        let group = groups.last();
        lemma_bounded(earlier, sizes);
        let before = packing(earlier, sizes);
        let after = packing(groups, sizes);
        assert(after == packed(before, group, size_at(sizes, group)));
        lemma_sizes(sizes, before.block, group);
        lemma_sizes(sizes, group, Seq::empty());
        assert(groups[groups.len() - 1] == group);
        assert forall|block: Seq<usize>| #[trigger]
            is_bounded(block, earlier, sizes) implies is_bounded(block, groups, sizes) by {
            if earlier.contains(block) {
                let i = choose|i: int| 0 <= i < earlier.len() && earlier[i] == block;
                assert(groups[i] == block);
            }
        }
        if before.block.len() == 0 {
            assert(before.block + group =~= group);
        }
        assert forall|i: int| 0 <= i < after.blocks.len() implies is_bounded(
            #[trigger] after.blocks[i],
            groups,
            sizes,
        ) && after.blocks[i].len() > 0 by {
            if i < before.blocks.len() {
                assert(after.blocks[i] == before.blocks[i]);
                assert(is_bounded(before.blocks[i], earlier, sizes));
            } else {
                assert(after.blocks[i] == before.block);
                assert(is_bounded(before.block, earlier, sizes));
            }
        }
    }
}

/// A block holds records and no more than eight mebibytes of them, unless it is one
/// group alone.
pub proof fn blocks_are_bounded(groups: Seq<Seq<usize>>, sizes: Seq<usize>, place: int)
    requires
        0 <= place < finished(packing(groups, sizes)).len(),
    ensures
        finished(packing(groups, sizes))[place].len() > 0,
        size_at(sizes, finished(packing(groups, sizes))[place]) <= 8_388_608 || groups.contains(
            finished(packing(groups, sizes))[place],
        ),
{
    lemma_bounded(groups, sizes);
    let packing = packing(groups, sizes);
    let block = finished(packing)[place];
    if place < packing.blocks.len() {
        assert(block == packing.blocks[place]);
        assert(is_bounded(packing.blocks[place], groups, sizes));
    } else {
        assert(block == packing.block);
    }
}

/// Batches cut the places every 32768 records and leave none out.
pub proof fn batches_follow_each_other(places: Seq<usize>, place: int)
    requires
        0 <= place < places.len(),
    ensures
        place % 32_768 < batch_of(places, place / 32_768).len() <= 32_768,
        batch_of(places, place / 32_768)[place % 32_768] == places[place],
{
    let batch = place / 32_768;
    assert(batch * TRACE_BATCH_RECORDS == batch * 32_768);
    assert((batch + 1) * TRACE_BATCH_RECORDS == (batch + 1) * 32_768);
}

} // verus!
