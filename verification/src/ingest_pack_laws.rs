//! What an accepted ingest pack is made of.

use vstd::bytes::{
    lemma_auto_spec_u16_to_from_le_bytes, lemma_auto_spec_u32_to_from_le_bytes,
    lemma_auto_spec_u64_to_from_le_bytes,
};
use vstd::prelude::*;

use crate::digest::short_checksum;
use crate::ingest_pack::{
    declared_groups, declared_records, group_at, group_records, groups_wire, live_at, live_header,
    lives_wire, pack_content, pack_header, walk_groups, walk_step, GroupContent, LiveContent,
    PackWalk, Reading,
};
use crate::zstd_frames::zstd_content;

verus! {

/// Whether a group holds records and bytes, its times are in order and its frame is
/// the one that was summed.
pub open spec fn is_sound(group: GroupContent) -> bool {
    &&& group.record_count > 0
    &&& 0 < group.structural_bytes <= 67_108_864
    &&& group.earliest <= group.latest
    &&& short_checksum(group.frame) == group.checksum
}

/// Whether a sidecar group is that of a group.
pub open spec fn agrees(live: LiveContent, group: GroupContent) -> bool {
    live.cohort == group.cohort && live.record_count == group.record_count && live.structural_bytes
        == group.structural_bytes
}

/// Whether what was read of a pack says what was asked for.
pub open spec fn reading_agrees(walk: PackWalk, reading: Reading) -> bool {
    match reading {
        Reading::Headers => true,
        Reading::Frames => forall|i: int|
            0 <= i < walk.groups.len() ==> (zstd_content((#[trigger] walk.groups[i]).frame) matches Some(
                content,
            ) && content.len() == walk.groups[i].structural_bytes),
        Reading::Live(_) => walk.lives.len() == walk.groups.len() && forall|i: int|
            0 <= i < walk.groups.len() ==> agrees(walk.lives[i], #[trigger] walk.groups[i]),
    }
}

proof fn lemma_group_bytes(payload: Seq<u8>, at: int)
    requires
        0 <= at,
        group_at(payload, at) is Ok,
    ensures
        ({
            let group = group_at(payload, at)->Ok_0;
            &&& at + 40 + group.frame.len() <= payload.len()
            &&& group.wire() == payload.subrange(at, at + 40 + group.frame.len() as int)
            &&& group.wire().len() == 40 + group.frame.len()
        }),
{
    lemma_auto_spec_u32_to_from_le_bytes();
    lemma_auto_spec_u64_to_from_le_bytes();
    let group = group_at(payload, at)->Ok_0;
    let whole = payload.subrange(at, at + 40 + group.frame.len() as int);
    let head = payload.subrange(at, at + 8) + payload.subrange(at + 8, at + 12) + payload.subrange(
        at + 12,
        at + 16,
    ) + payload.subrange(at + 16, at + 20);
    let tail = payload.subrange(at + 20, at + 24) + payload.subrange(at + 24, at + 32)
        + payload.subrange(at + 32, at + 40) + group.frame;
    assert(whole =~= head + tail);
    assert(group.wire() =~= head + tail);
}

proof fn lemma_live_bytes(context: Seq<u8>, at: int)
    requires
        0 <= at,
        live_at(context, at) is Ok,
    ensures
        ({
            let live = live_at(context, at)->Ok_0;
            &&& at + 20 + live.index.len() <= context.len()
            &&& live.wire() == context.subrange(at, at + 20 + live.index.len() as int)
            &&& live.wire().len() == 20 + live.index.len()
        }),
{
    lemma_auto_spec_u32_to_from_le_bytes();
    lemma_auto_spec_u64_to_from_le_bytes();
    let live = live_at(context, at)->Ok_0;
    let whole = context.subrange(at, at + 20 + live.index.len() as int);
    let parts = context.subrange(at, at + 8) + context.subrange(at + 8, at + 12)
        + context.subrange(at + 12, at + 16) + context.subrange(at + 16, at + 20) + live.index;
    assert(whole =~= parts);
    assert(live.wire() =~= parts);
}

spec fn walked(payload: Seq<u8>, reading: Reading, walk: PackWalk) -> bool {
    &&& 12 <= walk.at <= payload.len()
    &&& payload.subrange(12, walk.at) == groups_wire(walk.groups)
    &&& forall|i: int| 0 <= i < walk.groups.len() ==> is_sound(#[trigger] walk.groups[i])
    &&& reading_agrees(walk, reading)
    &&& reading matches Reading::Live(context) ==> 8 <= walk.live_at <= context.len()
        && context.subrange(8, walk.live_at) == lives_wire(walk.lives)
}

proof fn lemma_step(payload: Seq<u8>, reading: Reading, walk: PackWalk)
    requires
        walked(payload, reading, walk),
        walk_step(payload, reading, walk) is Ok,
    ensures
        walked(payload, reading, walk_step(payload, reading, walk)->Ok_0),
        walk_step(payload, reading, walk)->Ok_0.groups.len() == walk.groups.len() + 1,
{
    let next = walk_step(payload, reading, walk)->Ok_0;
    let group = group_at(payload, walk.at)->Ok_0;
    lemma_group_bytes(payload, walk.at);
    assert(next.groups == walk.groups.push(group));
    assert(next.groups.drop_last() =~= walk.groups && next.groups.last() == group);
    assert(payload.subrange(12, next.at) =~= payload.subrange(12, walk.at) + group.wire());
    assert(is_sound(group));
    assert forall|i: int| 0 <= i < next.groups.len() implies is_sound(#[trigger] next.groups[i]) by {
        if i < walk.groups.len() {
            assert(next.groups[i] == walk.groups[i]);
        }
    }
    match reading {
        Reading::Headers => {},
        Reading::Frames => {
            assert(group.frame_fault() is None);
            assert forall|i: int| 0 <= i < next.groups.len() implies (zstd_content(
                (#[trigger] next.groups[i]).frame,
            ) matches Some(content) && content.len() == next.groups[i].structural_bytes) by {
                if i < walk.groups.len() {
                    assert(next.groups[i] == walk.groups[i]);
                }
            }
        },
        Reading::Live(context) => {
            let live = live_at(context, walk.live_at)->Ok_0;
            lemma_live_bytes(context, walk.live_at);
            assert(next.lives == walk.lives.push(live));
            assert(next.lives.drop_last() =~= walk.lives && next.lives.last() == live);
            assert(context.subrange(8, next.live_at) =~= context.subrange(8, walk.live_at)
                + live.wire());
            assert forall|i: int| 0 <= i < next.groups.len() implies agrees(
                next.lives[i],
                #[trigger] next.groups[i],
            ) by {
                if i < walk.groups.len() {
                    assert(next.groups[i] == walk.groups[i] && next.lives[i] == walk.lives[i]);
                }
            }
        },
    }
}

proof fn lemma_walk(payload: Seq<u8>, reading: Reading, count: nat)
    requires
        payload.len() >= 12,
        reading matches Reading::Live(context) ==> context.len() >= 8,
        walk_groups(payload, reading, count) is Ok,
    ensures
        walked(payload, reading, walk_groups(payload, reading, count)->Ok_0),
        walk_groups(payload, reading, count)->Ok_0.groups.len() == count,
    decreases count,
{
    if count == 0 {
        let walk = walk_groups(payload, reading, count)->Ok_0;
        assert(payload.subrange(12, 12) =~= groups_wire(walk.groups));
        if let Reading::Live(context) = reading {
            assert(context.subrange(8, 8) =~= lives_wire(walk.lives));
        }
    } else {
        lemma_walk(payload, reading, (count - 1) as nat);
        let walk = walk_groups(payload, reading, (count - 1) as nat)->Ok_0;
        lemma_step(payload, reading, walk);
    }
}

/// A pack that is accepted is its header and its groups and nothing behind them: the
/// groups are sound, as many as the header says, and their records are as many as
/// were expected; frames that were read have the size they claim, and a sidecar that
/// was read holds one agreeing group for each.
pub proof fn accepted_packs_are_whole(payload: Seq<u8>, reading: Reading, expected: u32)
    requires
        pack_content(payload, reading, expected) is Ok,
    ensures
        ({
            let walk = pack_content(payload, reading, expected)->Ok_0;
            let count = walk.groups.len();
            &&& count <= u16::MAX
            &&& payload == pack_header(expected, count as u16) + groups_wire(walk.groups)
            &&& group_records(walk.groups) == expected
            &&& forall|i: int| 0 <= i < count ==> is_sound(#[trigger] walk.groups[i])
            &&& reading_agrees(walk, reading)
            &&& expected > 0 ==> count > 0
            &&& reading matches Reading::Live(context) ==> context == live_header(count as u16)
                + lives_wire(walk.lives)
        }),
{
    lemma_auto_spec_u16_to_from_le_bytes();
    lemma_auto_spec_u32_to_from_le_bytes();
    let count = declared_groups(payload);
    lemma_walk(payload, reading, count as nat);
    let walk = pack_content(payload, reading, expected)->Ok_0;
    assert(walk.at == payload.len());
    assert(declared_records(payload) == expected);
    let header = payload.subrange(0, 4) + payload.subrange(4, 8) + payload.subrange(8, 10)
        + payload.subrange(10, 12);
    assert(payload.subrange(10, 12) =~= seq![0u8, 0u8]);
    assert(pack_header(expected, count) =~= header);
    assert(payload =~= header + payload.subrange(12, payload.len() as int));
    if let Reading::Live(context) = reading {
        assert(walk.live_at == context.len());
        let live = context.subrange(0, 4) + context.subrange(4, 6) + context.subrange(6, 8);
        assert(context.subrange(6, 8) =~= seq![0u8, 0u8]);
        assert(live_header(count) =~= live);
        assert(context =~= live + context.subrange(8, context.len() as int));
    }
}

} // verus!
