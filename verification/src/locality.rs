//! Compressed structural blocks: one frame, or a `SLOGLOC1` container of
//! several.

use std::sync::Arc;

use vstd::bytes::{
    spec_u32_from_le_bytes, spec_u32_to_le_bytes, spec_u64_from_le_bytes, spec_u64_to_le_bytes,
};
use vstd::prelude::*;

use crate::dictionary::{CompressionPlacementId, DictionaryCatalogSnapshot, DictionaryId};
use crate::docker_blocks::{saturated, DockerStructuralRecord};
use crate::docker_json::{begins, starts_with};
use crate::records::MetadataField;
use crate::text::same_str;
use crate::wire::{fields_read_back, push_bytes, push_u32, push_u64, read_u32, read_u64};
use crate::zstd_frames::{
    zstd_content, zstd_decompress, zstd_dictionary_compress, zstd_dictionary_content,
    zstd_dictionary_decompress, zstd_dictionary_frames, zstd_dictionary_refuses,
};

verus! {

/// Compression level of structural blocks.
pub const ZSTD_LEVEL: i32 = 1;

/// One compressed group of records.
#[derive(Debug, PartialEq, Eq)]
pub struct CompressedStructural {
    /// Bytes before compression.
    pub structural_len: u64,
    /// Bytes of the query index within them.
    pub embedded_index_bytes: u64,
    /// Compressed frame.
    pub payload: Vec<u8>,
    /// Dictionary of the frame.
    pub dictionary_id: Option<DictionaryId>,
    /// Bytes of that dictionary.
    pub dictionary_payload: Option<Arc<Vec<u8>>>,
}

/// One compressed block.
#[derive(Debug, PartialEq, Eq)]
pub struct CompressedGroups {
    /// Bytes before compression.
    pub structural_bytes: u64,
    /// Bytes of the query indexes within them.
    pub embedded_index_bytes: u64,
    /// Frame or container.
    pub payload: Vec<u8>,
    /// Dictionary of the frame.
    pub dictionary_id: Option<DictionaryId>,
    /// Bytes of that dictionary.
    pub dictionary_payload: Option<Arc<Vec<u8>>>,
}

/// The dictionary that a snapshot assigns to a placement.
pub open spec fn assigned_dictionary(
    snapshot: Option<&DictionaryCatalogSnapshot>,
    placement_id: CompressionPlacementId,
) -> Option<(DictionaryId, Arc<Vec<u8>>)> {
    match snapshot {
        None => None,
        Some(snapshot) => if snapshot.assigned().contains_key(placement_id.0)
            && snapshot.payloads().contains_key(snapshot.assigned()[placement_id.0].0) {
            Some(
                (
                    snapshot.assigned()[placement_id.0],
                    snapshot.payloads()[snapshot.assigned()[placement_id.0].0],
                ),
            )
        } else {
            None
        },
    }
}

/// The bytes of a dictionary, or none.
pub open spec fn dictionary_bytes(dictionary: Option<Arc<Vec<u8>>>) -> Seq<u8> {
    match dictionary {
        Some(payload) => payload@,
        None => Seq::empty(),
    }
}

impl CompressedStructural {
    /// Whether the frame holds these bytes.
    pub open spec fn holds(&self, structural: Seq<u8>) -> bool {
        &&& self.structural_len == structural.len()
        &&& zstd_dictionary_content(self.payload@, dictionary_bytes(self.dictionary_payload))
            == Some(structural)
    }

    /// Whether the frame is one that these bytes are compressed to.
    pub open spec fn compresses(&self, structural: Seq<u8>) -> bool {
        self.holds(structural) && zstd_dictionary_frames(
            structural,
            ZSTD_LEVEL,
            dictionary_bytes(self.dictionary_payload),
        ).contains(self.payload@)
    }
}

/// The bytes of the dictionary that a snapshot assigns to a placement, or none.
pub open spec fn assigned_bytes(
    snapshot: Option<&DictionaryCatalogSnapshot>,
    placement_id: CompressionPlacementId,
) -> Seq<u8> {
    match assigned_dictionary(snapshot, placement_id) {
        Some((_, payload)) => payload@,
        None => Seq::empty(),
    }
}

/// Describes the frame that the compressor made under a dictionary, or passes
/// its complaint on.
pub fn describe_frame(
    made: Result<Vec<u8>, String>,
    dictionary: Option<(DictionaryId, Arc<Vec<u8>>)>,
    structural_len: u64,
    embedded_index_bytes: u64,
) -> (described: Result<CompressedStructural, String>)
    ensures
        described == match made {
            Ok(payload) => Ok(
                CompressedStructural {
                    structural_len,
                    embedded_index_bytes,
                    payload,
                    dictionary_id: match dictionary {
                        Some((id, _)) => Some(id),
                        None => None,
                    },
                    dictionary_payload: match dictionary {
                        Some((_, bytes)) => Some(bytes),
                        None => None,
                    },
                },
            ),
            Err(text) => Err(text),
        },
{
    let payload = match made {
        Ok(payload) => payload,
        Err(text) => {
            return Err(text);
        },
    };
    let (dictionary_id, dictionary_payload) = match dictionary {
        Some((id, bytes)) => (Some(id), Some(bytes)),
        None => (None, None),
    };
    Ok(
        CompressedStructural {
            structural_len,
            embedded_index_bytes,
            payload,
            dictionary_id,
            dictionary_payload,
        },
    )
}

/// Compresses a structural block with the dictionary of its placement. The
/// compressor decides whether a frame comes back; its complaint is passed on.
pub fn compress_log_block(
    snapshot: Option<&DictionaryCatalogSnapshot>,
    placement_id: CompressionPlacementId,
    structural: &[u8],
    embedded_index_bytes: u64,
) -> (compressed: Result<CompressedStructural, String>)
    requires
        2 * structural@.len() + 0x2_0000 <= isize::MAX,
    ensures
        match compressed {
            Ok(compressed) => {
                &&& compressed.compresses(structural@)
                &&& compressed.embedded_index_bytes == embedded_index_bytes
                &&& match assigned_dictionary(snapshot, placement_id) {
                    Some((id, payload)) => compressed.dictionary_id == Some(id)
                        && compressed.dictionary_payload == Some(payload),
                    None => compressed.dictionary_id is None
                        && compressed.dictionary_payload is None,
                }
            },
            Err(text) => zstd_dictionary_refuses(
                structural@,
                ZSTD_LEVEL,
                assigned_bytes(snapshot, placement_id),
                text@,
            ),
        },
{
    assert(structural.len() == structural@.len());
    let dictionary = match snapshot {
        Some(snapshot) => snapshot.dictionary_for(placement_id),
        None => None,
    };
    let made = match &dictionary {
        Some((_, bytes)) => zstd_dictionary_compress(structural, ZSTD_LEVEL, bytes.as_slice()),
        None => crate::zstd_frames::zstd_compress(structural, ZSTD_LEVEL),
    };
    describe_frame(made, dictionary, structural.len() as u64, embedded_index_bytes)
}

/// The magic of a container, `SLOGLOC1`.
pub open spec fn container_magic() -> Seq<u8> {
    seq![0x53u8, 0x4c, 0x4f, 0x47, 0x4c, 0x4f, 0x43, 0x31]
}

/// One frame of a container.
#[verifier::ext_equal]
pub struct FrameContent {
    /// Bytes before compression.
    pub structural_len: u64,
    /// Compressed bytes.
    pub frame: Seq<u8>,
}

impl FrameContent {
    /// The bytes of the frame in a container.
    pub open spec fn wire(self) -> Seq<u8> {
        spec_u64_to_le_bytes(self.structural_len) + spec_u64_to_le_bytes(self.frame.len() as u64)
            + self.frame
    }
}

/// Frames, one after the other.
pub open spec fn frames_wire(frames: Seq<FrameContent>) -> Seq<u8>
    decreases frames.len(),
{
    if frames.len() == 0 {
        Seq::empty()
    } else {
        frames_wire(frames.drop_last()) + frames.last().wire()
    }
}

/// The bytes of a container.
pub open spec fn container_wire(frames: Seq<FrameContent>) -> Seq<u8> {
    container_magic() + spec_u32_to_le_bytes(frames.len() as u32) + frames_wire(frames)
}

/// What a container keeps of compressed groups.
pub open spec fn frame_contents(frames: Seq<CompressedStructural>) -> Seq<FrameContent> {
    Seq::new(
        frames.len(),
        |i: int|
            FrameContent { structural_len: frames[i].structural_len, frame: frames[i].payload@ },
    )
}

/// Bytes before compression.
pub open spec fn structural_total(frames: Seq<FrameContent>) -> u64
    decreases frames.len(),
{
    if frames.len() == 0 {
        0
    } else {
        saturated(structural_total(frames.drop_last()) + frames.last().structural_len)
    }
}

/// Bytes of the query indexes.
pub open spec fn index_total(frames: Seq<CompressedStructural>) -> u64
    decreases frames.len(),
{
    if frames.len() == 0 {
        0
    } else {
        saturated(index_total(frames.drop_last()) + frames.last().embedded_index_bytes)
    }
}

/// Puts compressed groups together: one frame as it is, several in a container.
pub fn compress_groups(frames: Vec<CompressedStructural>) -> (groups: Result<CompressedGroups, String>)
    ensures
        match groups {
            Ok(groups) => {
                &&& groups.structural_bytes == structural_total(frame_contents(frames@))
                &&& groups.embedded_index_bytes == index_total(frames@)
                &&& if frames@.len() == 1 {
                    groups.payload == frames@[0].payload && groups.dictionary_id
                        == frames@[0].dictionary_id && groups.dictionary_payload
                        == frames@[0].dictionary_payload
                } else {
                    &&& forall|i: int| 0 <= i < frames@.len() ==> (#[trigger] frames@[i]).dictionary_id is None
                    &&& frames@.len() <= u32::MAX
                    &&& groups.payload@ == container_wire(frame_contents(frames@))
                    &&& groups.dictionary_id is None
                    &&& groups.dictionary_payload is None
                }
            },
            Err(complaint) => frames@.len() != 1 && if exists|i: int|
                0 <= i < frames@.len() && (#[trigger] frames@[i]).dictionary_id is Some {
                complaint@
                    == "real-time dictionaries cannot be combined with locality containers yet"@
            } else {
                frames@.len() > u32::MAX && complaint@
                    == "out of range integral type conversion attempted"@
            },
        },
{
    let ghost contents = frame_contents(frames@);
    let mut structural_bytes: u64 = 0;
    let mut embedded_index_bytes: u64 = 0;
    let mut dictionaries = false;
    let mut next: usize = 0;
    assert(contents.take(0) =~= Seq::<FrameContent>::empty());
    while next < frames.len()
        invariant
            next <= frames@.len(),
            contents == frame_contents(frames@),
            structural_bytes == structural_total(contents.take(next as int)),
            embedded_index_bytes == index_total(frames@.take(next as int)),
            dictionaries == exists|i: int|
                0 <= i < next && (#[trigger] frames@[i]).dictionary_id is Some,
        decreases frames@.len() - next,
    {
        assert(contents.take(next + 1).drop_last() =~= contents.take(next as int));
        assert(frames@.take(next + 1).drop_last() =~= frames@.take(next as int));
        let frame = &frames[next];
        structural_bytes = if structural_bytes > u64::MAX - frame.structural_len {
            u64::MAX
        } else {
            structural_bytes + frame.structural_len
        };
        embedded_index_bytes = if embedded_index_bytes > u64::MAX - frame.embedded_index_bytes {
            u64::MAX
        } else {
            embedded_index_bytes + frame.embedded_index_bytes
        };
        if frame.dictionary_id.is_some() {
            assert(frames@[next as int].dictionary_id is Some);
            dictionaries = true;
        }
        next = next + 1;
    }
    assert(contents.take(next as int) =~= contents);
    assert(frames@.take(next as int) =~= frames@);
    let ghost given = frames@;
    let mut frames = frames;
    if frames.len() == 1 {
        if let Some(frame) = frames.pop() {
            return Ok(
                CompressedGroups {
                    structural_bytes,
                    embedded_index_bytes,
                    payload: frame.payload,
                    dictionary_id: frame.dictionary_id,
                    dictionary_payload: frame.dictionary_payload,
                },
            );
        }
    }
    assert(frames@ == given);
    if dictionaries {
        return Err(
            "real-time dictionaries cannot be combined with locality containers yet".to_owned(),
        );
    }
    if frames.len() as u64 > u32::MAX as u64 {
        return Err("out of range integral type conversion attempted".to_owned());
    }
    let mut payload: Vec<u8> = Vec::new();
    payload.push(0x53);
    payload.push(0x4c);
    payload.push(0x4f);
    payload.push(0x47);
    payload.push(0x4c);
    payload.push(0x4f);
    payload.push(0x43);
    payload.push(0x31);
    push_u32(&mut payload, frames.len() as u32);
    let ghost head = container_magic() + spec_u32_to_le_bytes(contents.len() as u32);
    assert(payload@ =~= head);
    assert(payload@ =~= head + frames_wire(contents.take(0)));
    let mut place: usize = 0;
    while place < frames.len()
        invariant
            place <= frames@.len(),
            contents == frame_contents(frames@),
            payload@ == head + frames_wire(contents.take(place as int)),
        decreases frames@.len() - place,
    {
        assert(contents.take(place + 1).drop_last() =~= contents.take(place as int));
        let frame = &frames[place];
        push_u64(&mut payload, frame.structural_len);
        push_u64(&mut payload, frame.payload.len() as u64);
        push_bytes(&mut payload, frame.payload.as_slice());
        place = place + 1;
        assert(payload@ =~= head + frames_wire(contents.take(place as int)));
    }
    assert(contents.take(place as int) =~= contents);
    Ok(
        CompressedGroups {
            structural_bytes,
            embedded_index_bytes,
            payload,
            dictionary_id: None,
            dictionary_payload: None,
        },
    )
}

/// Why bytes are not a container.
pub enum LocalityFault {
    /// The frame count is cut.
    Count,
    /// A frame header is cut.
    Header,
    /// A length beyond the address space.
    Conversion,
    /// A frame that would end beyond the address space.
    Overflow,
    /// A frame is cut.
    Payload,
    /// A frame that cannot be decompressed.
    Frame,
    /// A frame that holds more than it declares.
    Oversized,
    /// Bytes left over, or another total.
    Length,
}

/// Whether a complaint is about this fault. Of a frame that cannot be
/// decompressed the decompressor itself complains.
pub open spec fn locality_complaint(complaint: Seq<char>, fault: LocalityFault) -> bool {
    match fault {
        LocalityFault::Count => complaint == "truncated locality frame count"@,
        LocalityFault::Header => complaint == "truncated locality frame header"@,
        LocalityFault::Conversion => complaint
            == "out of range integral type conversion attempted"@,
        LocalityFault::Overflow => complaint == "locality frame length overflow"@,
        LocalityFault::Payload => complaint == "truncated locality frame payload"@,
        LocalityFault::Frame => true,
        LocalityFault::Oversized => true,
        LocalityFault::Length => complaint == "invalid locality frame container length"@,
    }
}

/// The frame at a place of a container.
pub open spec fn frame_at(payload: Seq<u8>, at: int) -> Result<FrameContent, LocalityFault> {
    if at + 16 > payload.len() {
        Err(LocalityFault::Header)
    } else {
        let size = spec_u64_from_le_bytes(payload.subrange(at + 8, at + 16));
        if size > usize::MAX {
            Err(LocalityFault::Conversion)
        } else if at + 16 + size > usize::MAX {
            Err(LocalityFault::Overflow)
        } else if at + 16 + size > payload.len() {
            Err(LocalityFault::Payload)
        } else {
            Ok(
                FrameContent {
                    structural_len: spec_u64_from_le_bytes(payload.subrange(at, at + 8)),
                    frame: payload.subrange(at + 16, at + 16 + size),
                },
            )
        }
    }
}

/// The first frames of a container and the place after them.
pub open spec fn frames_after(payload: Seq<u8>, count: nat) -> Result<
    (Seq<FrameContent>, int),
    LocalityFault,
>
    decreases count,
{
    if count == 0 {
        Ok((Seq::empty(), 12))
    } else {
        match frames_after(payload, (count - 1) as nat) {
            Err(fault) => Err(fault),
            Ok((frames, at)) => match frame_at(payload, at) {
                Err(fault) => Err(fault),
                Ok(frame) => match zstd_content(frame.frame) {
                    None => Err(LocalityFault::Frame),
                    Some(content) => if content.len() > frame.structural_len {
                        Err(LocalityFault::Oversized)
                    } else {
                        Ok((frames.push(frame), at + 16 + frame.frame.len()))
                    },
                },
            },
        }
    }
}

/// The frames of a container.
pub open spec fn container_frames(payload: Seq<u8>, total: u64) -> Result<
    Seq<FrameContent>,
    LocalityFault,
> {
    if payload.len() < 12 {
        Err(LocalityFault::Count)
    } else {
        match frames_after(payload, declared_frames(payload) as nat) {
            Err(fault) => Err(fault),
            Ok((frames, at)) => if at != payload.len() || structural_total(frames) != total {
                Err(LocalityFault::Length)
            } else {
                Ok(frames)
            },
        }
    }
}

/// The first frames of a container and the place after them, without looking
/// into the frames.
pub open spec fn framed_after(payload: Seq<u8>, count: nat) -> Result<
    (Seq<FrameContent>, int),
    LocalityFault,
>
    decreases count,
{
    if count == 0 {
        Ok((Seq::empty(), 12))
    } else {
        match framed_after(payload, (count - 1) as nat) {
            Err(fault) => Err(fault),
            Ok((frames, at)) => match frame_at(payload, at) {
                Err(fault) => Err(fault),
                Ok(frame) => Ok((frames.push(frame), at + 16 + frame.frame.len())),
            },
        }
    }
}

/// The number of frames that a container declares.
pub open spec fn declared_frames(payload: Seq<u8>) -> u32 {
    spec_u32_from_le_bytes(payload.subrange(8, 12))
}

/// Whether every length that a container declares can be allocated.
pub open spec fn lengths_fit(payload: Seq<u8>) -> bool {
    payload.len() >= 12 ==> forall|count: nat|
        0 < count <= declared_frames(payload) ==> match #[trigger] framed_after(payload, count) {
            Ok((frames, _)) => frames.last().structural_len <= isize::MAX,
            Err(_) => true,
        }
}

/// Tells whether every length that a container declares can be allocated.
pub fn container_lengths_fit(payload: &[u8]) -> (fit: bool)
    ensures
        fit == lengths_fit(payload@),
{
    assert(payload.len() == payload@.len());
    if payload.len() < 12 {
        return true;
    }
    let count = read_u32(payload, 8);
    let mut at: usize = 12;
    let mut done: u32 = 0;
    let ghost mut frames: Seq<FrameContent> = Seq::empty();
    while done < count
        invariant
            done <= count,
            payload.len() == payload@.len(),
            12 <= at <= payload@.len(),
            count == declared_frames(payload@),
            framed_after(payload@, done as nat) == Ok::<(Seq<FrameContent>, int), LocalityFault>(
                (frames, at as int),
            ),
            forall|seen: nat|
                0 < seen <= done ==> match #[trigger] framed_after(payload@, seen) {
                    Ok((frames, _)) => frames.last().structural_len <= isize::MAX,
                    Err(_) => true,
                },
        decreases count - done,
    {
        match read_frame(payload, at) {
            Ok((structural_len, end)) => {
                proof {
                    frames =
                    frames.push(
                        FrameContent {
                            structural_len,
                            frame: payload@.subrange(at + 16, end as int),
                        },
                    );
                    assert(framed_after(payload@, (done + 1) as nat) == Ok::<
                        (Seq<FrameContent>, int),
                        LocalityFault,
                    >((frames, end as int)));
                }
                if structural_len > isize::MAX as u64 {
                    return false;
                }
                at = end;
            },
            Err(_) => {
                proof {
                    assert forall|seen: nat| 0 < seen <= count implies match #[trigger] framed_after(
                        payload@,
                        seen,
                    ) {
                        Ok((frames, _)) => frames.last().structural_len <= isize::MAX,
                        Err(_) => true,
                    } by {
                        if seen > done {
                            lemma_framing_stays((done + 1) as nat, seen, payload@);
                        }
                    }
                }
                return true;
            },
        }
        done = done + 1;
    }
    true
}

proof fn lemma_framing_stays(count: nat, total: nat, payload: Seq<u8>)
    requires
        count <= total,
        framed_after(payload, count) is Err,
    ensures
        framed_after(payload, total) is Err,
    decreases total,
{
    if count < total {
        lemma_framing_stays(count, (total - 1) as nat, payload);
    }
}

/// Frames that can be read are framed alike.
proof fn lemma_framed(payload: Seq<u8>, count: nat)
    ensures
        frames_after(payload, count) matches Ok(read) ==> framed_after(payload, count) == Ok::<
            (Seq<FrameContent>, int),
            LocalityFault,
        >(read),
    decreases count,
{
    if count > 0 {
        lemma_framed(payload, (count - 1) as nat);
    }
}

/// Whether structural blocks are what frames hold.
pub open spec fn unpacked(blocks: Seq<Vec<u8>>, frames: Seq<FrameContent>) -> bool {
    &&& blocks.len() == frames.len()
    &&& forall|i: int|
        0 <= i < blocks.len() ==> zstd_content(frames[i].frame) == Some((#[trigger] blocks[i])@)
}

fn read_frame(payload: &[u8], at: usize) -> (frame: Result<(u64, usize), String>)
    requires
        at <= payload@.len(),
    ensures
        match frame {
            Ok((structural_len, end)) => {
                &&& at + 16 <= end <= payload@.len()
                &&& frame_at(payload@, at as int) == Ok::<FrameContent, LocalityFault>(
                    FrameContent {
                        structural_len,
                        frame: payload@.subrange(at + 16, end as int),
                    },
                )
            },
            Err(complaint) => match frame_at(payload@, at as int) {
                Ok(_) => false,
                Err(fault) => locality_complaint(complaint@, fault),
            },
        },
{
    assert(payload.len() == payload@.len());
    if payload.len() - at < 16 {
        return Err("truncated locality frame header".to_owned());
    }
    let structural_len = read_u64(payload, at);
    let size = read_u64(payload, at + 8);
    if size > usize::MAX as u64 {
        return Err("out of range integral type conversion attempted".to_owned());
    }
    let start = at + 16;
    if size as usize > usize::MAX - start {
        return Err("locality frame length overflow".to_owned());
    }
    let end = start + size as usize;
    if end > payload.len() {
        return Err("truncated locality frame payload".to_owned());
    }
    Ok((structural_len, end))
}

/// What decoding a payload without the container magic gives.
pub open spec fn single_decoded(
    decoded: Result<Vec<Vec<u8>>, String>,
    payload: Seq<u8>,
    dictionary: Seq<u8>,
    total: u64,
) -> bool {
    match decoded {
        Ok(blocks) => blocks@.len() == 1 && zstd_dictionary_content(payload, dictionary) == Some(
            blocks@[0]@,
        ),
        Err(_) => match zstd_dictionary_content(payload, dictionary) {
            Some(content) => content.len() > total,
            None => true,
        },
    }
}

/// The structural blocks of a payload, whether it is one frame or a container.
/// Whether a frame that holds more than it declares is refused is up to the
/// decompressor; blocks that come back are what the frames hold all the same.
pub fn decode_locality_payload(payload: &[u8], structural_total: u64, dictionary: Option<&[u8]>) -> (decoded:
    Result<Vec<Vec<u8>>, String>)
    requires
        structural_total <= isize::MAX,
        begins(payload@, container_magic()) ==> lengths_fit(payload@),
    ensures
        if !begins(payload@, container_magic()) {
            single_decoded(
                decoded,
                payload@,
                match dictionary {
                    Some(dictionary) => dictionary@,
                    None => Seq::empty(),
                },
                structural_total,
            )
        } else if dictionary is Some {
            decoded matches Err(complaint) && complaint@
                == "a locality container cannot use one shared dictionary"@
        } else {
            match container_frames(payload@, structural_total) {
                Ok(frames) => decoded matches Ok(blocks) && unpacked(blocks@, frames),
                Err(LocalityFault::Oversized) => decoded matches Ok(blocks) ==> match framed_after(
                    payload@,
                    declared_frames(payload@) as nat,
                ) {
                    Ok((frames, end)) => end == payload@.len() && self::structural_total(frames)
                        == structural_total && unpacked(blocks@, frames),
                    Err(_) => false,
                },
                Err(fault) => decoded matches Err(complaint) && locality_complaint(
                    complaint@,
                    fault,
                ),
            }
        },
{
    assert(payload.len() == payload@.len());
    let mut magic: Vec<u8> = Vec::new();
    magic.push(0x53);
    magic.push(0x4c);
    magic.push(0x4f);
    magic.push(0x47);
    magic.push(0x4c);
    magic.push(0x4f);
    magic.push(0x43);
    magic.push(0x31);
    assert(magic@ =~= container_magic());
    if !starts_with(payload, magic.as_slice()) {
        let structural = match dictionary {
            Some(dictionary) => zstd_dictionary_decompress(
                payload,
                structural_total as usize,
                dictionary,
            )?,
            None => zstd_decompress(payload, structural_total as usize)?,
        };
        let mut blocks: Vec<Vec<u8>> = Vec::new();
        blocks.push(structural);
        return Ok(blocks);
    }
    if dictionary.is_some() {
        return Err("a locality container cannot use one shared dictionary".to_owned());
    }
    if payload.len() < 12 {
        return Err("truncated locality frame count".to_owned());
    }
    let count = read_u32(payload, 8);
    let mut blocks: Vec<Vec<u8>> = Vec::new();
    let mut at: usize = 12;
    let mut observed: u64 = 0;
    let mut done: u32 = 0;
    let ghost mut frames: Seq<FrameContent> = Seq::empty();
    while done < count
        invariant
            done <= count,
            payload.len() == payload@.len(),
            12 <= at <= payload@.len(),
            begins(payload@, container_magic()),
            dictionary is None,
            lengths_fit(payload@),
            count == declared_frames(payload@),
            framed_after(payload@, done as nat) == Ok::<(Seq<FrameContent>, int), LocalityFault>(
                (frames, at as int),
            ),
            frames_after(payload@, done as nat) is Ok || container_frames(
                payload@,
                structural_total,
            ) == Err::<Seq<FrameContent>, LocalityFault>(LocalityFault::Oversized),
            observed == self::structural_total(frames),
            unpacked(blocks@, frames),
        decreases count - done,
    {
        proof {
            lemma_fault_stays(payload@, (done + 1) as nat, count as nat);
            lemma_framed(payload@, done as nat);
        }
        let (structural_len, end) = read_frame(payload, at)?;
        let frame = vstd::slice::slice_subrange(payload, at + 16, end);
        let ghost content = FrameContent { structural_len, frame: frame@ };
        proof {
            assert(framed_after(payload@, (done + 1) as nat) == Ok::<
                (Seq<FrameContent>, int),
                LocalityFault,
            >((frames.push(content), end as int)));
            assert(frames.push(content).last() == content);
        }
        let structural = zstd_decompress(frame, structural_len as usize)?;
        proof {
            assert(frames.push(content).drop_last() =~= frames);
            frames = frames.push(content);
        }
        observed = if observed > u64::MAX - structural_len {
            u64::MAX
        } else {
            observed + structural_len
        };
        let ghost earlier = blocks@;
        blocks.push(structural);
        proof {
            assert forall|i: int| 0 <= i < blocks@.len() implies zstd_content(frames[i].frame)
                == Some((#[trigger] blocks@[i])@) by {
                if i < earlier.len() {
                    assert(blocks@[i] == earlier[i]);
                }
            }
        }
        at = end;
        done = done + 1;
    }
    proof {
        lemma_framed(payload@, count as nat);
    }
    if at != payload.len() || observed != structural_total {
        return Err("invalid locality frame container length".to_owned());
    }
    Ok(blocks)
}

/// A frame that is refused stays refused, however many follow it.
proof fn lemma_fault_stays(payload: Seq<u8>, count: nat, total: nat)
    requires
        count <= total,
    ensures
        frames_after(payload, count) matches Err(fault) ==> frames_after(payload, total) == Err::<
            (Seq<FrameContent>, int),
            LocalityFault,
        >(fault),
    decreases total,
{
    if count < total {
        lemma_fault_stays(payload, count, (total - 1) as nat);
    }
}

/// The first frames of a container come first in its bytes.
proof fn lemma_frames_prefix(frames: Seq<FrameContent>, count: int)
    requires
        0 <= count <= frames.len(),
    ensures
        frames_wire(frames.take(count)).len() <= frames_wire(frames).len(),
        frames_wire(frames).take(frames_wire(frames.take(count)).len() as int) == frames_wire(
            frames.take(count),
        ),
    decreases frames.len(),
{
    if count == frames.len() {
        assert(frames.take(count) =~= frames);
        assert(frames_wire(frames).take(frames_wire(frames).len() as int) =~= frames_wire(frames));
    } else {
        let shorter = frames.drop_last();
        lemma_frames_prefix(shorter, count);
        assert(shorter.take(count) =~= frames.take(count));
        let length = frames_wire(frames.take(count)).len() as int;
        assert(frames_wire(frames).take(length) =~= frames_wire(shorter).take(length));
    }
}

proof fn lemma_frames_read(frames: Seq<FrameContent>, count: int)
    requires
        0 <= count <= frames.len() <= u32::MAX,
        container_wire(frames).len() <= usize::MAX,
        forall|i: int|
            0 <= i < frames.len() ==> match zstd_content((#[trigger] frames[i]).frame) {
                Some(content) => content.len() <= frames[i].structural_len,
                None => false,
            },
    ensures
        frames_after(container_wire(frames), count as nat) == Ok::<
            (Seq<FrameContent>, int),
            LocalityFault,
        >((frames.take(count), 12 + frames_wire(frames.take(count)).len() as int)),
    decreases count,
{
    fields_read_back();
    let payload = container_wire(frames);
    if count == 0 {
        assert(frames.take(0) =~= Seq::<FrameContent>::empty());
    } else {
        let before = count - 1;
        lemma_frames_read(frames, before);
        lemma_frames_prefix(frames, count);
        let frame = frames[before];
        let wire = frame.wire();
        let head = container_magic() + spec_u32_to_le_bytes(frames.len() as u32);
        assert(head.len() == 12);
        assert(frames.take(count).drop_last() =~= frames.take(before));
        assert(frames.take(count).last() == frame);
        let upto = frames_wire(frames.take(before));
        let body = frames_wire(frames);
        assert(frames_wire(frames.take(count)) == upto + wire);
        assert(wire.len() == 16 + frame.frame.len());
        let at = (12 + upto.len()) as int;
        let found = payload.subrange(at, at + wire.len());
        let taken = body.take((upto.len() + wire.len()) as int);
        assert forall|i: int| 0 <= i < wire.len() implies found[i] == wire[i] by {
            let place = upto.len() as int + i;
            assert(found[i] == payload[at + i]);
            assert(payload[at + i] == body[place]);
            assert(taken[place] == body[place]);
            assert((upto + wire)[place] == wire[i]);
        }
        assert(found =~= wire);
        assert(payload.subrange(at, at + 8) =~= wire.subrange(0, 8));
        assert(wire.subrange(0, 8) =~= spec_u64_to_le_bytes(frame.structural_len));
        assert(payload.subrange(at + 8, at + 16) =~= wire.subrange(8, 16));
        assert(wire.subrange(8, 16) =~= spec_u64_to_le_bytes(frame.frame.len() as u64));
        assert(payload.subrange(at + 16, at + 16 + frame.frame.len()) =~= wire.subrange(
            16,
            wire.len() as int,
        ));
        assert(wire.subrange(16, wire.len() as int) =~= frame.frame);
        assert(frames.take(before).push(frame) =~= frames.take(count));
    }
}

/// A container gives back its frames, in order, with the total of their
/// lengths.
pub proof fn containers_read_back(frames: Seq<FrameContent>)
    requires
        frames.len() <= u32::MAX,
        container_wire(frames).len() <= usize::MAX,
        forall|i: int|
            0 <= i < frames.len() ==> match zstd_content((#[trigger] frames[i]).frame) {
                Some(content) => content.len() <= frames[i].structural_len,
                None => false,
            },
    ensures
        begins(container_wire(frames), container_magic()),
        container_frames(container_wire(frames), structural_total(frames)) == Ok::<
            Seq<FrameContent>,
            LocalityFault,
        >(frames),
{
    fields_read_back();
    let payload = container_wire(frames);
    assert((container_magic() + spec_u32_to_le_bytes(frames.len() as u32)).len() == 12);
    assert(payload.take(8) =~= container_magic());
    assert(payload.subrange(8, 12) =~= spec_u32_to_le_bytes(frames.len() as u32));
    lemma_frames_read(frames, frames.len() as int);
    assert(frames.take(frames.len() as int) =~= frames);
}

/// One record that was read back from a structural block.
#[derive(Debug, PartialEq, Eq)]
pub struct DecodedStructuralRecord {
    /// Offset of the record.
    pub offset: u64,
    /// Unix nanoseconds.
    pub timestamp_unix_nanos: u64,
    /// Message text.
    pub message: String,
    /// Text fields.
    pub fields: Vec<MetadataField>,
}

/// Whether a decoded record is the one that was encoded.
pub open spec fn decoded_as(decoded: DecodedStructuralRecord, record: DockerStructuralRecord) -> bool {
    &&& decoded.offset == record.offset
    &&& decoded.timestamp_unix_nanos == record.timestamp_unix_nanos
    &&& decoded.message@ == record.message@
    &&& decoded.fields@.len() == 1
    &&& decoded.fields@[0].key@ == "docker.stream"@
    &&& decoded.fields@[0].value@ == record.stream@
}

/// Tells whether a decoded record is the one that was encoded.
fn is_decoded_as(decoded: &DecodedStructuralRecord, record: &DockerStructuralRecord) -> (same: bool)
    ensures
        same == decoded_as(*decoded, *record),
{
    decoded.offset == record.offset && decoded.timestamp_unix_nanos == record.timestamp_unix_nanos
        && same_str(decoded.message.as_str(), record.message.as_str()) && decoded.fields.len() == 1
        && same_str(decoded.fields[0].key.as_str(), "docker.stream") && same_str(
        decoded.fields[0].value.as_str(),
        record.stream.as_str(),
    )
}

/// Whether one decoded record comes before another: by offset, then by place.
pub open spec fn offset_before(decoded: Seq<DecodedStructuralRecord>, left: int, right: int) -> bool {
    decoded[left].offset < decoded[right].offset || decoded[left].offset == decoded[right].offset
        && left < right
}

/// Whether these are the places of all decoded records in the order of their
/// offsets.
pub open spec fn offset_order(decoded: Seq<DecodedStructuralRecord>, places: Seq<usize>) -> bool {
    &&& places.len() == decoded.len()
    &&& forall|i: int| 0 <= i < places.len() ==> (#[trigger] places[i]) < decoded.len()
    &&& forall|i: int, j: int|
        0 <= i < j < places.len() ==> offset_before(
            decoded,
            #[trigger] places[i] as int,
            #[trigger] places[j] as int,
        )
}

/// Orders decoded records by their offsets.
pub fn order_by_offset(decoded: &Vec<DecodedStructuralRecord>) -> (places: Vec<usize>)
    ensures
        offset_order(decoded@, places@),
{
    let mut places: Vec<usize> = Vec::new();
    let mut next: usize = 0;
    while next < decoded.len()
        invariant
            next <= decoded@.len(),
            places@.len() == next,
            forall|i: int| 0 <= i < places@.len() ==> (#[trigger] places@[i]) < next,
            forall|i: int, j: int|
                0 <= i < j < places@.len() ==> offset_before(
                    decoded@,
                    #[trigger] places@[i] as int,
                    #[trigger] places@[j] as int,
                ),
        decreases decoded@.len() - next,
    {
        let offset = decoded[next].offset;
        let mut low: usize = 0;
        let mut high: usize = places.len();
        while low < high
            invariant
                low <= high <= places@.len(),
                next < decoded@.len(),
                offset == decoded@[next as int].offset,
                forall|i: int| 0 <= i < places@.len() ==> (#[trigger] places@[i]) < next,
                forall|i: int, j: int|
                    0 <= i < j < places@.len() ==> offset_before(
                        decoded@,
                        #[trigger] places@[i] as int,
                        #[trigger] places@[j] as int,
                    ),
                forall|i: int|
                    0 <= i < low ==> decoded@[#[trigger] places@[i] as int].offset <= offset,
                forall|i: int|
                    high <= i < places@.len() ==> decoded@[#[trigger] places@[i] as int].offset
                        > offset,
            decreases high - low,
        {
            let middle = low + (high - low) / 2;
            if decoded[places[middle]].offset <= offset {
                low = middle + 1;
            } else {
                high = middle;
            }
        }
        let ghost before = places@;
        places.insert(low, next);
        proof {
            assert forall|i: int, j: int| 0 <= i < j < places@.len() implies offset_before(
                decoded@,
                #[trigger] places@[i] as int,
                #[trigger] places@[j] as int,
            ) by {
                let from_i = if i < low {
                    i
                } else {
                    i - 1
                };
                let from_j = if j < low {
                    j
                } else {
                    j - 1
                };
                if i != low {
                    assert(places@[i] == before[from_i]);
                }
                if j != low {
                    assert(places@[j] == before[from_j]);
                }
            }
        }
        next = next + 1;
    }
    places
}

/// Whether decoded records, taken in some order, are the ones that were encoded.
pub open spec fn decoded_in_order(
    decoded: Seq<DecodedStructuralRecord>,
    places: Seq<usize>,
    expected: Seq<DockerStructuralRecord>,
) -> bool {
    &&& places.len() == expected.len()
    &&& forall|i: int|
        0 <= i < places.len() ==> decoded_as(decoded[#[trigger] places[i] as int], expected[i])
}

/// Checks that decoded records are the ones that were encoded, once they are in
/// the order of their offsets.
pub fn verify_by_offset(
    decoded: &Vec<DecodedStructuralRecord>,
    expected: &Vec<DockerStructuralRecord>,
) -> (checked: Result<(), String>)
    ensures
        exists|places: Seq<usize>| #[trigger]
            offset_order(decoded@, places) && match checked {
                Ok(_) => decoded_in_order(decoded@, places, expected@),
                Err(complaint) => !decoded_in_order(decoded@, places, expected@) && complaint@
                    == "structural first-block round trip failed"@,
            },
{
    let places = order_by_offset(decoded);
    assert(offset_order(decoded@, places@));
    if places.len() != expected.len() {
        return Err("structural first-block round trip failed".to_owned());
    }
    let mut next: usize = 0;
    while next < places.len()
        invariant
            next <= places@.len() == expected@.len(),
            offset_order(decoded@, places@),
            forall|i: int|
                0 <= i < next ==> decoded_as(
                    decoded@[#[trigger] places@[i] as int],
                    expected@[i],
                ),
        decreases places@.len() - next,
    {
        if !is_decoded_as(&decoded[places[next]], &expected[next]) {
            assert(!decoded_as(decoded@[places@[next as int] as int], expected@[next as int]));
            return Err("structural first-block round trip failed".to_owned());
        }
        next = next + 1;
    }
    Ok(())
}

/// Checks that decoded records are the ones that were encoded.
pub fn verify_decoded_records(
    decoded: &Vec<DecodedStructuralRecord>,
    expected: &Vec<DockerStructuralRecord>,
) -> (checked: Result<(), String>)
    ensures
        match checked {
            Ok(_) => decoded@.len() == expected@.len() && forall|i: int|
                0 <= i < decoded@.len() ==> decoded_as(#[trigger] decoded@[i], expected@[i]),
            Err(complaint) => complaint@ == "structural first-block round trip failed"@ && (
            decoded@.len() != expected@.len() || exists|i: int|
                0 <= i < decoded@.len() && !decoded_as(#[trigger] decoded@[i], expected@[i])),
        },
{
    if decoded.len() != expected.len() {
        return Err("structural first-block round trip failed".to_owned());
    }
    let mut next: usize = 0;
    while next < decoded.len()
        invariant
            next <= decoded@.len() == expected@.len(),
            forall|i: int| 0 <= i < next ==> decoded_as(#[trigger] decoded@[i], expected@[i]),
        decreases decoded@.len() - next,
    {
        if !is_decoded_as(&decoded[next], &expected[next]) {
            assert(!decoded_as(decoded@[next as int], expected@[next as int]));
            return Err("structural first-block round trip failed".to_owned());
        }
        next = next + 1;
    }
    Ok(())
}

} // verus!
