//! What packs and pages of sealed queries say.

use vstd::bytes::{spec_u64_from_le_bytes, spec_u64_to_le_bytes};
use vstd::prelude::*;

use crate::block_results::BlockResult;
use crate::pack_query::{
    entry_field, entry_of, hits_in, page_complete, upper_digit, upper_hex, PageLimit, QueryHit,
};
use crate::wire::fields_read_back;

verus! {

/// What the writer of a manifest lists of a block, the reader of packs gives back:
/// place, size, worker, place within the pack, stored size and checksum.
pub proof fn packed_entries_read_back(block: BlockResult)
    requires
        block.ordinal <= u32::MAX,
        block.structural_bytes <= usize::MAX,
        block.pack_worker <= usize::MAX,
        block.structural_stored_bytes <= usize::MAX,
    ensures
        entry_of(block.wire()) matches Some(entry) && entry.ordinal == block.ordinal
            && entry.structural_bytes == block.structural_bytes && entry.pack_worker
            == block.pack_worker && entry.pack_offset == block.pack_offset && entry.stored_bytes
            == block.structural_stored_bytes && entry.payload_checksum == block.payload_checksum,
{
    fields_read_back();
    let wire = block.wire();
    let le = |value: u64| spec_u64_to_le_bytes(value);
    assert(le(block.ordinal).len() == 8 && le(block.source_offset).len() == 8 && le(
        block.input_bytes,
    ).len() == 8 && le(block.source_bytes).len() == 8 && le(block.record_count).len() == 8 && le(
        block.structural_bytes,
    ).len() == 8 && le(block.pack_worker).len() == 8 && le(block.pack_offset).len() == 8 && le(
        block.structural_stored_bytes,
    ).len() == 8 && le(block.payload_checksum).len() == 8);
    assert(wire.subrange(0, 8) =~= le(block.ordinal));
    assert(wire.subrange(40, 48) =~= le(block.structural_bytes));
    assert(wire.subrange(48, 56) =~= le(block.pack_worker));
    assert(wire.subrange(56, 64) =~= le(block.pack_offset));
    assert(wire.subrange(64, 72) =~= le(block.structural_stored_bytes));
    assert(wire.subrange(72, 80) =~= le(block.payload_checksum));
    assert(entry_field(wire, 0) == spec_u64_from_le_bytes(le(block.ordinal)));
    assert(entry_field(wire, 5) == spec_u64_from_le_bytes(le(block.structural_bytes)));
    assert(entry_field(wire, 6) == spec_u64_from_le_bytes(le(block.pack_worker)));
    assert(entry_field(wire, 7) == spec_u64_from_le_bytes(le(block.pack_offset)));
    assert(entry_field(wire, 8) == spec_u64_from_le_bytes(le(block.structural_stored_bytes)));
    assert(entry_field(wire, 9) == spec_u64_from_le_bytes(le(block.payload_checksum)));
}

/// The hits of a block are those of its records that were hit, as often and in the
/// order in which they come.
pub proof fn hits_are_grouped_by_block(hits: Seq<QueryHit>, block: u32)
    ensures
        hits_in(hits, block) == hits.filter(
            |hit: QueryHit| hit.block_ordinal == block,
        ).map_values(|hit: QueryHit| hit.record_ordinal),
    decreases hits.len(),
{
    reveal(Seq::filter);
    let here = |hit: QueryHit| hit.block_ordinal == block;
    let record = |hit: QueryHit| hit.record_ordinal;
    if hits.len() == 0 {
        assert(hits_in(hits, block) =~= hits.filter(here).map_values(record));
    } else {
        hits_are_grouped_by_block(hits.drop_last(), block);
        let before = hits.drop_last().filter(here);
        if hits.last().block_ordinal == block {
            assert(hits.filter(here) == before.push(hits.last()));
            assert(before.push(hits.last()).map_values(record) =~= before.map_values(record).push(
                hits.last().record_ordinal,
            ));
        }
    }
}

/// The value of a hexadecimal digit in capitals.
pub open spec fn capital_worth(digit: char) -> int {
    if digit <= '9' {
        digit as u32 - '0' as u32
    } else {
        digit as u32 - 'A' as u32 + 10
    }
}

/// Bytes in hexadecimal are two capitals or digits each, the higher half first, and
/// spell the bytes.
pub proof fn bytes_are_spelled_in_capitals(bytes: Seq<u8>)
    ensures
        upper_hex(bytes).len() == 2 * bytes.len(),
        forall|i: int|
            0 <= i < bytes.len() ==> 16 * capital_worth(upper_hex(bytes)[2 * i]) + capital_worth(
                upper_hex(bytes)[2 * i + 1],
            ) == #[trigger] bytes[i],
        forall|i: int|
            0 <= i < upper_hex(bytes).len() ==> '0' <= (#[trigger] upper_hex(bytes)[i]) <= '9'
                || 'A' <= upper_hex(bytes)[i] <= 'F',
    decreases bytes.len(),
{
    if bytes.len() > 0 {
        let shorter = bytes.drop_last();
        let before = upper_hex(shorter);
        let whole = upper_hex(bytes);
        let last = bytes.last();
        bytes_are_spelled_in_capitals(shorter);
        assert(whole == before.push(upper_digit(last / 16)).push(upper_digit(last % 16)));
        assert forall|i: int| 0 <= i < bytes.len() implies 16 * capital_worth(whole[2 * i])
            + capital_worth(whole[2 * i + 1]) == #[trigger] bytes[i] by {
            if i < shorter.len() {
                assert(shorter[i] == bytes[i]);
                assert(whole[2 * i] == before[2 * i]);
                assert(whole[2 * i + 1] == before[2 * i + 1]);
            }
        }
        assert forall|i: int| 0 <= i < whole.len() implies '0' <= (#[trigger] whole[i]) <= '9'
            || 'A' <= whole[i] <= 'F' by {
            if i < before.len() {
                assert(whole[i] == before[i]);
            }
        }
    }
}

/// A page is complete only where it has a limit, goes by offset and has as many
/// records as its limit; more records never make it less complete.
pub proof fn complete_pages_stay_complete(page: PageLimit, records: nat, more: nat)
    requires
        records <= more,
    ensures
        page_complete(page, records) ==> page_complete(page, more),
        page.limit is None || !page.by_offset ==> !page_complete(page, records),
        page.by_offset && page.limit is Some ==> page_complete(page, page.limit->0 as nat),
        page.limit matches Some(limit) ==> records < limit ==> !page_complete(page, records),
{
}

} // verus!
