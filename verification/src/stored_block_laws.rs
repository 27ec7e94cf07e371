//! What accepted containers, manifests and dictionary assignments are made of.

use vstd::bytes::{lemma_auto_spec_u64_to_from_le_bytes, spec_u64_to_le_bytes};
use vstd::prelude::*;

use crate::block_results::{
    apply_run, apply_runs, entries_wire, entry_at, manifest_entries, manifest_magic, manifest_wire,
    BlockResult, DictionaryRun,
};
use crate::locality::{
    container_frames, declared_frames, frame_at, frames_after, frames_wire, structural_total,
    FrameContent,
};
use crate::wire_layout_laws::u32_at;
use crate::zstd_frames::zstd_content;

verus! {

/// Whether a frame can be read and holds no more than it claims.
pub open spec fn is_readable(frame: FrameContent) -> bool {
    zstd_content(frame.frame) matches Some(content) && content.len() <= frame.structural_len
}

proof fn lemma_frame_bytes(payload: Seq<u8>, at: int)
    requires
        0 <= at,
        frame_at(payload, at) is Ok,
    ensures
        ({
            let frame = frame_at(payload, at)->Ok_0;
            &&& at + 16 + frame.frame.len() <= payload.len()
            &&& frame.wire() == payload.subrange(at, at + 16 + frame.frame.len() as int)
            &&& frame.wire().len() == 16 + frame.frame.len()
        }),
{
    lemma_auto_spec_u64_to_from_le_bytes();
    let frame = frame_at(payload, at)->Ok_0;
    let parts = payload.subrange(at, at + 8) + payload.subrange(at + 8, at + 16) + frame.frame;
    assert(frame.wire() =~= parts);
    assert(payload.subrange(at, at + 16 + frame.frame.len() as int) =~= parts);
}

proof fn lemma_frames(payload: Seq<u8>, count: nat)
    requires
        payload.len() >= 12,
        frames_after(payload, count) is Ok,
    ensures
        ({
            let (frames, at) = frames_after(payload, count)->Ok_0;
            &&& frames.len() == count
            &&& 12 <= at <= payload.len()
            &&& payload.subrange(12, at) == frames_wire(frames)
            &&& forall|i: int| 0 <= i < count ==> is_readable(#[trigger] frames[i])
        }),
    decreases count,
{
    let (frames, at) = frames_after(payload, count)->Ok_0;
    if count == 0 {
        assert(payload.subrange(12, 12) =~= frames_wire(frames));
    } else {
        lemma_frames(payload, (count - 1) as nat);
        let (earlier, before) = frames_after(payload, (count - 1) as nat)->Ok_0;
        let frame = frame_at(payload, before)->Ok_0;
        lemma_frame_bytes(payload, before);
        assert(frames == earlier.push(frame));
        assert(frames.drop_last() =~= earlier && frames.last() == frame);
        assert(payload.subrange(12, at) =~= payload.subrange(12, before) + frame.wire());
        assert forall|i: int| 0 <= i < count implies is_readable(#[trigger] frames[i]) by {
            if i < count - 1 {
                assert(frames[i] == earlier[i]);
            }
        }
    }
}

/// A container that is accepted holds as many frames as it says and nothing behind
/// them; every frame can be read and holds no more than it claims, and the claims
/// make the total that was asked for.
pub proof fn accepted_containers_are_whole(payload: Seq<u8>, total: u64)
    requires
        container_frames(payload, total) is Ok,
    ensures
        ({
            let frames = container_frames(payload, total)->Ok_0;
            &&& payload.len() >= 12
            &&& u32_at(payload, 8) == frames.len()
            &&& payload.skip(12) == frames_wire(frames)
            &&& structural_total(frames) == total
            &&& forall|i: int| 0 <= i < frames.len() ==> is_readable(#[trigger] frames[i])
        }),
{
    let count = declared_frames(payload);
    lemma_frames(payload, count as nat);
    let frames = container_frames(payload, total)->Ok_0;
    assert(payload.skip(12) =~= payload.subrange(12, payload.len() as int));
}

proof fn lemma_entry_bytes(manifest: Seq<u8>, at: int)
    requires
        0 <= at,
        at + 80 <= manifest.len(),
    ensures
        entry_at(manifest, at).wire() == manifest.subrange(at, at + 80),
{
    lemma_auto_spec_u64_to_from_le_bytes();
    let entry = entry_at(manifest, at);
    let front = manifest.subrange(at, at + 8) + manifest.subrange(at + 8, at + 16)
        + manifest.subrange(at + 16, at + 24) + manifest.subrange(at + 24, at + 32)
        + manifest.subrange(at + 32, at + 40);
    let back = manifest.subrange(at + 40, at + 48) + manifest.subrange(at + 48, at + 56)
        + manifest.subrange(at + 56, at + 64) + manifest.subrange(at + 64, at + 72)
        + manifest.subrange(at + 72, at + 80);
    assert(front =~= manifest.subrange(at, at + 40));
    assert(back =~= manifest.subrange(at + 40, at + 80));
    assert(entry.wire() =~= front + back);
    assert(manifest.subrange(at, at + 80) =~= front + back);
}

proof fn lemma_entries_bytes(manifest: Seq<u8>, entries: Seq<BlockResult>)
    requires
        17 + entries.len() * 80 <= manifest.len(),
        forall|i: int|
            0 <= i < entries.len() ==> #[trigger] entries[i] == entry_at(manifest, 17 + i * 80),
    ensures
        entries_wire(entries) == manifest.subrange(17, 17 + entries.len() as int * 80),
    decreases entries.len(),
{
    let end = 17 + entries.len() * 80;
    if entries.len() == 0 {
        assert(entries_wire(entries) =~= manifest.subrange(17, end as int));
    } else {
        let earlier = entries.drop_last();
        assert forall|i: int| 0 <= i < earlier.len() implies #[trigger] earlier[i] == entry_at(
            manifest,
            17 + i * 80,
        ) by {
            assert(earlier[i] == entries[i]);
        }
        lemma_entries_bytes(manifest, earlier);
        lemma_entry_bytes(manifest, end - 80);
        assert(entries.last() == entry_at(manifest, end - 80));
        assert(manifest.subrange(17, end as int) =~= manifest.subrange(17, end - 80)
            + manifest.subrange(end - 80, end as int));
    }
}

/// A manifest that is accepted is the manifest of what was read from it.
pub proof fn accepted_manifests_are_whole(manifest: Seq<u8>)
    requires
        manifest_entries(manifest) is Ok,
    ensures
        manifest_wire(manifest_entries(manifest)->Ok_0) == manifest,
{
    lemma_auto_spec_u64_to_from_le_bytes();
    let entries = manifest_entries(manifest)->Ok_0;
    lemma_entries_bytes(manifest, entries);
    let head = manifest.take(9) + manifest.subrange(9, 17);
    assert(manifest =~= head + manifest.subrange(17, manifest.len() as int));
    assert(spec_u64_to_le_bytes(entries.len() as u64) == manifest.subrange(9, 17));
    assert(manifest.take(9) == manifest_magic());
}

/// Whether a block is one of a run.
pub open spec fn is_covered(run: DictionaryRun, place: int) -> bool {
    run.start <= place < run.start + run.length
}

/// Whether two blocks differ at most in their dictionary.
pub open spec fn same_block(a: BlockResult, b: BlockResult) -> bool {
    a == (BlockResult { dictionary_id: a.dictionary_id, ..b })
}

/// Runs that are accepted hold blocks, lie within the manifest and cover no block
/// that had a dictionary or that another run covers; every block of a run has the
/// dictionary of the run, and nothing else of a block changes.
pub proof fn accepted_runs_stand_apart(entries: Seq<BlockResult>, runs: Seq<DictionaryRun>)
    requires
        apply_runs(entries, runs) is Ok,
    ensures
        ({
            let assigned = apply_runs(entries, runs)->Ok_0;
            &&& assigned.len() == entries.len()
            &&& forall|i: int|
                0 <= i < entries.len() ==> same_block(#[trigger] assigned[i], entries[i])
            &&& forall|r: int|
                0 <= r < runs.len() ==> (#[trigger] runs[r]).length > 0 && runs[r].start
                    + runs[r].length <= entries.len()
            &&& forall|r: int, i: int|
                #![trigger is_covered(runs[r], i)]
                0 <= r < runs.len() && is_covered(runs[r], i) ==> assigned[i].dictionary_id == Some(
                    runs[r].dictionary_id,
                ) && entries[i].dictionary_id is None
            &&& forall|r: int, s: int, i: int|
                #![trigger is_covered(runs[r], i), is_covered(runs[s], i)]
                0 <= r < s < runs.len() ==> !(is_covered(runs[r], i) && is_covered(runs[s], i))
            &&& forall|i: int|
                0 <= i < entries.len() && (forall|r: int|
                    0 <= r < runs.len() ==> !is_covered(#[trigger] runs[r], i))
                    ==> #[trigger] assigned[i] == entries[i]
        }),
    decreases runs.len(),
{
    if runs.len() > 0 {
        let earlier = runs.drop_last();
        let run = runs.last();
        let last = runs.len() - 1;
        accepted_runs_stand_apart(entries, earlier);
        let before = apply_runs(entries, earlier)->Ok_0;
        let assigned = apply_runs(entries, runs)->Ok_0;
        assert(apply_run(before, run) is Ok);
        assert(forall|r: int| 0 <= r < last ==> earlier[r] == #[trigger] runs[r]);
        assert(runs[last] == run);
        assert forall|i: int| 0 <= i < entries.len() implies same_block(
            #[trigger] assigned[i],
            entries[i],
        ) by {
            assert(same_block(before[i], entries[i]));
        }
        assert forall|r: int| 0 <= r < runs.len() implies (#[trigger] runs[r]).length > 0
            && runs[r].start + runs[r].length <= entries.len() by {
            if r < last {
                assert(earlier[r].length > 0);
            }
        }
        assert forall|i: int| is_covered(run, i) implies (#[trigger] before[i]).dictionary_id
            is None by {}
        assert forall|r: int, i: int|
            #![trigger is_covered(runs[r], i)]
            0 <= r < runs.len() && is_covered(runs[r], i) implies assigned[i].dictionary_id == Some(
            runs[r].dictionary_id,
        ) && entries[i].dictionary_id is None by {
            assert(0 <= i < entries.len());
            if r < last {
                assert(is_covered(earlier[r], i));
                assert(before[i].dictionary_id is Some);
                assert(!is_covered(run, i));
            } else {
                assert(before[i].dictionary_id is None);
                assert(same_block(before[i], entries[i]));
                if entries[i].dictionary_id is Some {
                    lemma_kept(entries, earlier, i);
                }
            }
        }
        assert forall|r: int, s: int, i: int|
            #![trigger is_covered(runs[r], i), is_covered(runs[s], i)]
            0 <= r < s < runs.len() implies !(is_covered(runs[r], i) && is_covered(runs[s], i)) by {
            if is_covered(runs[r], i) && is_covered(runs[s], i) {
                assert(is_covered(earlier[r], i));
                if s < last {
                    assert(is_covered(earlier[s], i));
                } else {
                    assert(before[i].dictionary_id is Some);
                }
            }
        }
        assert forall|i: int|
            0 <= i < entries.len() && (forall|r: int|
                0 <= r < runs.len() ==> !is_covered(#[trigger] runs[r], i))
            implies #[trigger] assigned[i] == entries[i] by {
            assert(!is_covered(runs[last], i));
            assert forall|r: int| 0 <= r < earlier.len() implies !is_covered(
                #[trigger] earlier[r],
                i,
            ) by {
                assert(!is_covered(runs[r], i));
            }
            assert(before[i] == entries[i]);
        }
    }
}

proof fn lemma_kept(entries: Seq<BlockResult>, runs: Seq<DictionaryRun>, place: int)
    requires
        apply_runs(entries, runs) is Ok,
        0 <= place < entries.len(),
        entries[place].dictionary_id is Some,
    ensures
        apply_runs(entries, runs)->Ok_0.len() == entries.len(),
        apply_runs(entries, runs)->Ok_0[place].dictionary_id is Some,
    decreases runs.len(),
{
    if runs.len() > 0 {
        lemma_kept(entries, runs.drop_last(), place);
    }
}

} // verus!
