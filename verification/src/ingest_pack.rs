//! The `SLW1` pack of compressed record groups and its `SLT1` live sidecar.

use vstd::bytes::{
    spec_u16_from_le_bytes, spec_u16_to_le_bytes, spec_u32_from_le_bytes, spec_u32_to_le_bytes,
    spec_u64_from_le_bytes, spec_u64_to_le_bytes,
};
use vstd::prelude::*;

use crate::dictionary::CompressionCohortId;
use crate::digest::{payload_checksum, short_checksum};
use crate::error::{TelemetryError, TelemetryResult};
use crate::wire::{
    fields_read_back, push_bytes, push_u16, push_u32, push_u64, read_u16, read_u32, read_u64,
};
use crate::zstd_frames::{
    zstd_compress, zstd_content, zstd_decompress, zstd_frames, zstd_refuses,
};

verus! {

/// Bytes before the first group of a pack.
pub const INGEST_PACK_HEADER_BYTES: usize = 12;

/// Bytes before the frame of a group.
pub const INGEST_GROUP_HEADER_BYTES: usize = 40;

/// Bytes before the first group of a sidecar.
pub const TRANSIENT_PACK_HEADER_BYTES: usize = 8;

/// Bytes before the index of a sidecar group.
pub const TRANSIENT_GROUP_HEADER_BYTES: usize = 20;

/// Compression level of durable groups.
pub const INGEST_PACK_ZSTD_LEVEL: i32 = 1;

/// Most bytes that one group may hold before compression.
pub const MAX_INGEST_STRUCTURAL_BYTES: usize = 67_108_864;

/// Records of one compression cohort, encoded and ready to be packed.
#[derive(Debug, PartialEq, Eq)]
pub struct IngestGroupInput {
    /// Cohort that all the records share.
    pub cohort: CompressionCohortId,
    /// Event time of each record.
    pub timestamps_unix_nanos: Vec<u64>,
    /// Structural encoding of the records.
    pub structural: Vec<u8>,
    /// Query index of that encoding.
    pub embedded_index: Vec<u8>,
}

/// A durable pack and the sidecar that travels with it in memory.
#[derive(Debug, PartialEq, Eq)]
pub struct PreparedIngestPack {
    /// Durable bytes.
    pub payload: Vec<u8>,
    /// Query indexes of the same groups, for the live sink only.
    pub transient_context: Vec<u8>,
}

/// Where the query index of a frame is found.
#[derive(Debug, PartialEq, Eq)]
pub enum FrameIndexSource {
    /// The index itself, taken from the sidecar.
    Live(Vec<u8>),
    /// The structural encoding that embeds it.
    Encoded(Vec<u8>),
}

/// One durable group with its query index.
#[derive(Debug, PartialEq, Eq)]
pub struct IndexedIngestFrame {
    /// Identifier that the owner stripe assigns.
    pub frame_id: u64,
    /// Cohort that all the records share.
    pub cohort: CompressionCohortId,
    /// Number of records.
    pub record_count: u32,
    /// Bytes of the structural encoding.
    pub structural_bytes: usize,
    /// Earliest event time.
    pub min_timestamp_unix_nanos: u64,
    /// Latest event time.
    pub max_timestamp_unix_nanos: u64,
    /// Compressed structural encoding.
    pub compressed: Vec<u8>,
    /// Query index.
    pub index: FrameIndexSource,
}

/// One group read from a pack.
#[derive(Debug, PartialEq, Eq)]
pub struct DecodedIngestGroup {
    /// Cohort that all the records share.
    pub cohort: CompressionCohortId,
    /// Number of records.
    pub record_count: u32,
    /// Structural encoding of the records.
    pub structural: Vec<u8>,
}

/// What one group of a pack holds.
#[verifier::ext_equal]
pub struct GroupContent {
    /// Cohort of the records.
    pub cohort: u64,
    /// Number of records.
    pub record_count: u32,
    /// Bytes before compression.
    pub structural_bytes: u32,
    /// Checksum of the frame.
    pub checksum: u32,
    /// Earliest event time.
    pub earliest: u64,
    /// Latest event time.
    pub latest: u64,
    /// Compressed bytes.
    pub frame: Seq<u8>,
}

/// What one group of a sidecar holds.
#[verifier::ext_equal]
pub struct LiveContent {
    /// Cohort of the records.
    pub cohort: u64,
    /// Number of records.
    pub record_count: u32,
    /// Bytes of the structural encoding.
    pub structural_bytes: u32,
    /// Query index.
    pub index: Seq<u8>,
}

/// Why bytes are not a pack.
pub enum PackFault {
    /// Bad magic, length or reserved bytes.
    Header,
    /// A header that is cut before its record count.
    Truncated,
    /// A declared record count other than the expected one.
    RecordCount,
    /// A group header that is cut.
    GroupHeader,
    /// A frame that is cut.
    GroupPayload,
    /// Counts, times or a checksum that do not hold.
    Group,
    /// Bytes left over, or records missing.
    Totals,
    /// A frame that cannot be decompressed.
    Frame,
    /// A frame that holds fewer bytes than declared.
    StructuralLength,
    /// A frame that holds more bytes than declared.
    Oversized,
    /// Bad magic, length or reserved bytes of the sidecar.
    LiveHeader,
    /// A sidecar with another number of groups.
    LiveCount,
    /// A sidecar group header that is cut.
    LiveGroupHeader,
    /// A sidecar index that is cut.
    LiveIndex,
    /// A sidecar group that describes another group.
    LiveDisagrees,
    /// Bytes left over in the sidecar.
    LiveTotals,
}

/// What is said of a fault.
pub open spec fn pack_fault_text(fault: PackFault) -> Seq<char> {
    match fault {
        PackFault::Header => "invalid compressed ingest pack header"@,
        PackFault::Truncated => "compressed ingest pack header is truncated"@,
        PackFault::RecordCount => "compressed ingest record count mismatch"@,
        PackFault::GroupHeader => "compressed ingest group header is truncated"@,
        PackFault::GroupPayload => "compressed ingest group payload is truncated"@,
        PackFault::Group => "invalid compressed ingest group"@,
        PackFault::Totals => "compressed ingest pack totals are invalid"@,
        PackFault::Frame => ""@,
        PackFault::StructuralLength => "compressed ingest structural length mismatch"@,
        PackFault::Oversized => "compressed ingest structural length mismatch"@,
        PackFault::LiveHeader => "invalid transient ingest pack header"@,
        PackFault::LiveCount => "transient ingest group count mismatch"@,
        PackFault::LiveGroupHeader => "transient ingest group header is truncated"@,
        PackFault::LiveIndex => "transient ingest index payload is truncated"@,
        PackFault::LiveDisagrees => "transient ingest group disagrees with durable group"@,
        PackFault::LiveTotals => "transient ingest pack totals are invalid"@,
    }
}

/// Whether an error reports exactly this fault.
pub open spec fn pack_reports(error: TelemetryError, fault: PackFault) -> bool {
    match error {
        TelemetryError::CompressionFailed(_) => fault is Frame || fault is Oversized,
        TelemetryError::InvalidBlockEncoding(message) => !(fault is Frame) && message@
            == pack_fault_text(fault),
        _ => false,
    }
}

/// The four magic bytes of a pack, `SLW1`.
pub open spec fn pack_magic() -> Seq<u8> {
    seq![0x53u8, 0x4c, 0x57, 0x31]
}

/// The four magic bytes of a sidecar, `SLT1`.
pub open spec fn live_magic() -> Seq<u8> {
    seq![0x53u8, 0x4c, 0x54, 0x31]
}

/// The header of a pack.
pub open spec fn pack_header(record_count: u32, group_count: u16) -> Seq<u8> {
    pack_magic() + spec_u32_to_le_bytes(record_count) + spec_u16_to_le_bytes(group_count)
        + seq![0u8, 0u8]
}

/// The header of a sidecar.
pub open spec fn live_header(group_count: u16) -> Seq<u8> {
    live_magic() + spec_u16_to_le_bytes(group_count) + seq![0u8, 0u8]
}

impl GroupContent {
    /// The bytes of the group.
    pub open spec fn wire(self) -> Seq<u8> {
        spec_u64_to_le_bytes(self.cohort) + spec_u32_to_le_bytes(self.record_count)
            + spec_u32_to_le_bytes(self.structural_bytes) + spec_u32_to_le_bytes(
            self.frame.len() as u32,
        ) + spec_u32_to_le_bytes(self.checksum) + spec_u64_to_le_bytes(self.earliest)
            + spec_u64_to_le_bytes(self.latest) + self.frame
    }

    /// Whether the group is worth decompressing.
    pub open spec fn valid(self) -> bool {
        &&& self.record_count != 0
        &&& 0 < self.structural_bytes <= MAX_INGEST_STRUCTURAL_BYTES
        &&& self.earliest <= self.latest
        &&& short_checksum(self.frame) == self.checksum
    }

    /// Why the frame cannot be read, if it cannot.
    pub open spec fn frame_fault(self) -> Option<PackFault> {
        match zstd_content(self.frame) {
            None => Some(PackFault::Frame),
            Some(content) => if content.len() < self.structural_bytes {
                Some(PackFault::StructuralLength)
            } else if content.len() > self.structural_bytes {
                Some(PackFault::Oversized)
            } else {
                None
            },
        }
    }

    /// The structural encoding that the frame holds.
    pub open spec fn structural(self) -> Seq<u8> {
        zstd_content(self.frame)->0
    }
}

impl LiveContent {
    /// The bytes of the sidecar group.
    pub open spec fn wire(self) -> Seq<u8> {
        spec_u64_to_le_bytes(self.cohort) + spec_u32_to_le_bytes(self.record_count)
            + spec_u32_to_le_bytes(self.structural_bytes) + spec_u32_to_le_bytes(
            self.index.len() as u32,
        ) + self.index
    }

    /// Whether this is the sidecar of that group.
    pub open spec fn describes(self, group: GroupContent) -> bool {
        &&& self.cohort == group.cohort
        &&& self.record_count == group.record_count
        &&& self.structural_bytes == group.structural_bytes
    }
}

/// The groups of a pack, one after the other.
pub open spec fn groups_wire(groups: Seq<GroupContent>) -> Seq<u8>
    decreases groups.len(),
{
    if groups.len() == 0 {
        Seq::empty()
    } else {
        groups_wire(groups.drop_last()) + groups.last().wire()
    }
}

/// The groups of a sidecar, one after the other.
pub open spec fn lives_wire(groups: Seq<LiveContent>) -> Seq<u8>
    decreases groups.len(),
{
    if groups.len() == 0 {
        Seq::empty()
    } else {
        lives_wire(groups.drop_last()) + groups.last().wire()
    }
}

/// Records of all the groups.
pub open spec fn group_records(groups: Seq<GroupContent>) -> nat
    decreases groups.len(),
{
    if groups.len() == 0 {
        0
    } else {
        group_records(groups.drop_last()) + groups.last().record_count as nat
    }
}

/// The group that starts at a position of a pack.
pub open spec fn group_at(payload: Seq<u8>, at: int) -> Result<GroupContent, PackFault> {
    if at + 40 > payload.len() {
        Err(PackFault::GroupHeader)
    } else {
        let size = spec_u32_from_le_bytes(payload.subrange(at + 16, at + 20));
        if at + 40 + size > payload.len() {
            Err(PackFault::GroupPayload)
        } else {
            Ok(
                GroupContent {
                    cohort: spec_u64_from_le_bytes(payload.subrange(at, at + 8)),
                    record_count: spec_u32_from_le_bytes(payload.subrange(at + 8, at + 12)),
                    structural_bytes: spec_u32_from_le_bytes(payload.subrange(at + 12, at + 16)),
                    checksum: spec_u32_from_le_bytes(payload.subrange(at + 20, at + 24)),
                    earliest: spec_u64_from_le_bytes(payload.subrange(at + 24, at + 32)),
                    latest: spec_u64_from_le_bytes(payload.subrange(at + 32, at + 40)),
                    frame: payload.subrange(at + 40, at + 40 + size),
                },
            )
        }
    }
}

/// The sidecar group that starts at a position of a sidecar.
pub open spec fn live_at(context: Seq<u8>, at: int) -> Result<LiveContent, PackFault> {
    if at + 20 > context.len() {
        Err(PackFault::LiveGroupHeader)
    } else {
        let size = spec_u32_from_le_bytes(context.subrange(at + 16, at + 20));
        if at + 20 + size > context.len() {
            Err(PackFault::LiveIndex)
        } else {
            Ok(
                LiveContent {
                    cohort: spec_u64_from_le_bytes(context.subrange(at, at + 8)),
                    record_count: spec_u32_from_le_bytes(context.subrange(at + 8, at + 12)),
                    structural_bytes: spec_u32_from_le_bytes(context.subrange(at + 12, at + 16)),
                    index: context.subrange(at + 20, at + 20 + size),
                },
            )
        }
    }
}

/// How far the groups of a pack are looked into.
pub enum Reading {
    /// Headers and checksums.
    Headers,
    /// Frames as well.
    Frames,
    /// Headers, together with this sidecar.
    Live(Seq<u8>),
}

/// What has been read of a pack.
#[verifier::ext_equal]
pub struct PackWalk {
    /// Groups so far.
    pub groups: Seq<GroupContent>,
    /// Sidecar groups so far.
    pub lives: Seq<LiveContent>,
    /// Position in the pack.
    pub at: int,
    /// Position in the sidecar.
    pub live_at: int,
}

/// What is read of the next group of a pack.
pub open spec fn walk_step(payload: Seq<u8>, reading: Reading, walk: PackWalk) -> Result<
    PackWalk,
    PackFault,
> {
    match group_at(payload, walk.at) {
        Err(fault) => Err(fault),
        Ok(group) => {
            let next = PackWalk {
                groups: walk.groups.push(group),
                at: walk.at + 40 + group.frame.len(),
                ..walk
            };
            if !group.valid() {
                Err(PackFault::Group)
            } else {
                match reading {
                    Reading::Headers => Ok(next),
                    Reading::Frames => match group.frame_fault() {
                        Some(fault) => Err(fault),
                        None => Ok(next),
                    },
                    Reading::Live(context) => match live_at(context, walk.live_at) {
                        Err(fault) => Err(fault),
                        Ok(live) => if live.describes(group) {
                            Ok(
                                PackWalk {
                                    lives: walk.lives.push(live),
                                    live_at: walk.live_at + 20 + live.index.len(),
                                    ..next
                                },
                            )
                        } else {
                            Err(PackFault::LiveDisagrees)
                        },
                    },
                }
            }
        },
    }
}

/// What is read of the first `count` groups of a pack.
pub open spec fn walk_groups(payload: Seq<u8>, reading: Reading, count: nat) -> Result<
    PackWalk,
    PackFault,
>
    decreases count,
{
    if count == 0 {
        Ok(PackWalk { groups: Seq::empty(), lives: Seq::empty(), at: 12, live_at: 8 })
    } else {
        match walk_groups(payload, reading, (count - 1) as nat) {
            Err(fault) => Err(fault),
            Ok(walk) => walk_step(payload, reading, walk),
        }
    }
}

/// The number of groups that a pack declares.
pub open spec fn declared_groups(payload: Seq<u8>) -> u16 {
    spec_u16_from_le_bytes(payload.subrange(8, 10))
}

/// The number of records that a pack declares.
pub open spec fn declared_records(payload: Seq<u8>) -> u32 {
    spec_u32_from_le_bytes(payload.subrange(4, 8))
}

/// Why the header of a pack is refused, if it is.
pub open spec fn header_fault(payload: Seq<u8>, expected: u32) -> Option<PackFault> {
    if payload.len() < 12 || payload.subrange(0, 4) != pack_magic() || payload[10] != 0
        || payload[11] != 0 {
        Some(PackFault::Header)
    } else if declared_records(payload) != expected {
        Some(PackFault::RecordCount)
    } else {
        None
    }
}

/// Why the header of a sidecar is refused, if it is.
pub open spec fn live_header_fault(context: Seq<u8>, groups: u16) -> Option<PackFault> {
    if context.len() < 8 || context.subrange(0, 4) != live_magic() || context[6] != 0
        || context[7] != 0 {
        Some(PackFault::LiveHeader)
    } else if spec_u16_from_le_bytes(context.subrange(4, 6)) != groups {
        Some(PackFault::LiveCount)
    } else {
        None
    }
}

/// Why the end of a pack is refused, if it is.
pub open spec fn totals_fault(
    payload: Seq<u8>,
    reading: Reading,
    expected: u32,
    walk: PackWalk,
) -> Option<PackFault> {
    if walk.at != payload.len() || group_records(walk.groups) != expected || (expected > 0
        && declared_groups(payload) == 0) {
        Some(PackFault::Totals)
    } else {
        match reading {
            Reading::Live(context) => if walk.live_at != context.len() {
                Some(PackFault::LiveTotals)
            } else {
                None
            },
            _ => None,
        }
    }
}

/// What a pack holds, read this far.
pub open spec fn pack_content(payload: Seq<u8>, reading: Reading, expected: u32) -> Result<
    PackWalk,
    PackFault,
> {
    let live_fault = match reading {
        Reading::Live(context) => live_header_fault(context, declared_groups(payload)),
        _ => None,
    };
    if header_fault(payload, expected) is Some {
        Err(header_fault(payload, expected)->0)
    } else if live_fault is Some {
        Err(live_fault->0)
    } else {
        match walk_groups(payload, reading, declared_groups(payload) as nat) {
            Err(fault) => Err(fault),
            Ok(walk) => match totals_fault(payload, reading, expected, walk) {
                Some(fault) => Err(fault),
                None => Ok(walk),
            },
        }
    }
}

/// One group of a pack, by its place in it.
struct IngestGroup {
    cohort: u64,
    record_count: u32,
    structural_bytes: u32,
    checksum: u32,
    min_timestamp_unix_nanos: u64,
    max_timestamp_unix_nanos: u64,
    start: usize,
    end: usize,
}

impl IngestGroup {
    spec fn content(&self, payload: Seq<u8>) -> GroupContent {
        GroupContent {
            cohort: self.cohort,
            record_count: self.record_count,
            structural_bytes: self.structural_bytes,
            checksum: self.checksum,
            earliest: self.min_timestamp_unix_nanos,
            latest: self.max_timestamp_unix_nanos,
            frame: payload.subrange(self.start as int, self.end as int),
        }
    }
}

/// One group of a sidecar, by its place in it.
struct TransientGroup {
    cohort: u64,
    record_count: u32,
    structural_bytes: u32,
    start: usize,
    end: usize,
}

impl TransientGroup {
    spec fn content(&self, context: Seq<u8>) -> LiveContent {
        LiveContent {
            cohort: self.cohort,
            record_count: self.record_count,
            structural_bytes: self.structural_bytes,
            index: context.subrange(self.start as int, self.end as int),
        }
    }
}

/// Reads the header of a pack and returns its number of groups.
fn open_pack(payload: &[u8], expected_record_count: u32) -> (groups: TelemetryResult<u16>)
    ensures
        match groups {
            Ok(groups) => header_fault(payload@, expected_record_count) is None && groups
                == declared_groups(payload@) && payload@.len() >= 12,
            Err(error) => header_fault(payload@, expected_record_count) is Some && pack_reports(
                error,
                header_fault(payload@, expected_record_count)->0,
            ),
        },
{
    if payload.len() < INGEST_PACK_HEADER_BYTES || payload[0] != 0x53 || payload[1] != 0x4c
        || payload[2] != 0x57 || payload[3] != 0x31 || payload[10] != 0 || payload[11] != 0 {
        proof {
            if payload@.len() >= 12 && payload@.subrange(0, 4) == pack_magic() {
                assert(payload@.subrange(0, 4)[0] == pack_magic()[0]);
                assert(payload@.subrange(0, 4)[1] == pack_magic()[1]);
                assert(payload@.subrange(0, 4)[2] == pack_magic()[2]);
                assert(payload@.subrange(0, 4)[3] == pack_magic()[3]);
            }
        }
        return Err(TelemetryError::InvalidBlockEncoding("invalid compressed ingest pack header"));
    }
    assert(payload@.subrange(0, 4) =~= pack_magic());
    if read_u32(payload, 4) != expected_record_count {
        return Err(TelemetryError::InvalidBlockEncoding("compressed ingest record count mismatch"));
    }
    Ok(read_u16(payload, 8))
}

/// Reads and checks the group that starts at `at`.
fn read_group(payload: &[u8], at: usize) -> (group: TelemetryResult<IngestGroup>)
    requires
        at <= payload@.len(),
    ensures
        match group {
            Ok(group) => {
                &&& group_at(payload@, at as int) == Ok::<GroupContent, PackFault>(
                    group.content(payload@),
                )
                &&& group.content(payload@).valid()
                &&& group.start == at + 40
                &&& group.start <= group.end <= payload@.len()
            },
            Err(error) => match group_at(payload@, at as int) {
                Err(fault) => pack_reports(error, fault),
                Ok(content) => !content.valid() && pack_reports(error, PackFault::Group),
            },
        },
{
    assert(payload.len() == payload@.len());
    if payload.len() - at < INGEST_GROUP_HEADER_BYTES {
        return Err(
            TelemetryError::InvalidBlockEncoding("compressed ingest group header is truncated"),
        );
    }
    let size = read_u32(payload, at + 16) as usize;
    let start = at + INGEST_GROUP_HEADER_BYTES;
    if payload.len() - start < size {
        return Err(
            TelemetryError::InvalidBlockEncoding("compressed ingest group payload is truncated"),
        );
    }
    let group = IngestGroup {
        cohort: read_u64(payload, at),
        record_count: read_u32(payload, at + 8),
        structural_bytes: read_u32(payload, at + 12),
        checksum: read_u32(payload, at + 20),
        min_timestamp_unix_nanos: read_u64(payload, at + 24),
        max_timestamp_unix_nanos: read_u64(payload, at + 32),
        start,
        end: start + size,
    };
    if group.record_count == 0 || group.structural_bytes == 0 || group.structural_bytes as usize
        > MAX_INGEST_STRUCTURAL_BYTES || group.min_timestamp_unix_nanos
        > group.max_timestamp_unix_nanos || payload_checksum(
        vstd::slice::slice_subrange(payload, group.start, group.end),
    ) != group.checksum {
        return Err(TelemetryError::InvalidBlockEncoding("invalid compressed ingest group"));
    }
    Ok(group)
}

/// Decompresses one frame to exactly `structural_bytes` bytes.
fn decompress_frame(frame: &[u8], structural_bytes: usize) -> (structural: TelemetryResult<Vec<u8>>)
    requires
        structural_bytes <= isize::MAX,
    ensures
        match structural {
            Ok(structural) => zstd_content(frame@) == Some(structural@) && structural@.len()
                == structural_bytes,
            Err(error) => match zstd_content(frame@) {
                None => pack_reports(error, PackFault::Frame),
                Some(content) => if content.len() < structural_bytes {
                    pack_reports(error, PackFault::StructuralLength)
                } else {
                    content.len() > structural_bytes && pack_reports(error, PackFault::Oversized)
                },
            },
        },
{
    match zstd_decompress(frame, structural_bytes) {
        Ok(structural) => {
            if structural.len() != structural_bytes {
                return Err(
                    TelemetryError::InvalidBlockEncoding(
                        "compressed ingest structural length mismatch",
                    ),
                );
            }
            Ok(structural)
        },
        Err(text) => Err(TelemetryError::CompressionFailed(text)),
    }
}

/// Checks a pack without decompressing it.
pub fn validate_ingest_pack(payload: &[u8], expected_record_count: u32) -> (checked:
    TelemetryResult<()>)
    ensures
        match checked {
            Ok(_) => pack_content(payload@, Reading::Headers, expected_record_count) is Ok,
            Err(error) => match pack_content(payload@, Reading::Headers, expected_record_count) {
                Ok(_) => false,
                Err(fault) => pack_reports(error, fault),
            },
        },
{
    let count = open_pack(payload, expected_record_count)?;
    let mut done: u16 = 0;
    let mut at: usize = INGEST_PACK_HEADER_BYTES;
    let mut observed: u64 = 0;
    let ghost mut walk = walk_groups(payload@, Reading::Headers, 0)->Ok_0;
    while done < count
        invariant
            done <= count,
            count == declared_groups(payload@),
            header_fault(payload@, expected_record_count) is None,
            at <= payload@.len(),
            walk_groups(payload@, Reading::Headers, done as nat) == Ok::<PackWalk, PackFault>(walk),
            walk.at == at,
            observed == group_records(walk.groups),
            observed <= done * 0x1_0000_0000,
        decreases count - done,
    {
        proof {
            lemma_fault_is_final(
                payload@,
                Reading::Headers,
                (done + 1) as nat,
                count as nat,
            );
        }
        let group = read_group(payload, at)?;
        proof {
            let content = group.content(payload@);
            assert(walk.groups.push(content).drop_last() =~= walk.groups);
            walk =
            PackWalk {
                groups: walk.groups.push(content),
                at: walk.at + 40 + content.frame.len(),
                ..walk
            };
        }
        observed = observed + group.record_count as u64;
        at = group.end;
        done = done + 1;
    }
    if at != payload.len() || observed != expected_record_count as u64 || (expected_record_count > 0
        && count == 0) {
        return Err(
            TelemetryError::InvalidBlockEncoding("compressed ingest pack totals are invalid"),
        );
    }
    Ok(())
}

/// A group that is refused stays refused, however many follow it.
proof fn lemma_fault_is_final(payload: Seq<u8>, reading: Reading, count: nat, total: nat)
    requires
        count <= total,
    ensures
        walk_groups(payload, reading, count) matches Err(fault) ==> walk_groups(
            payload,
            reading,
            total,
        ) == Err::<PackWalk, PackFault>(fault),
    decreases total,
{
    if count < total {
        lemma_fault_is_final(payload, reading, count, (total - 1) as nat);
    }
}

/// The records of a pack, group by group.
pub open spec fn decoded_as(decoded: Seq<DecodedIngestGroup>, groups: Seq<GroupContent>) -> bool {
    &&& decoded.len() == groups.len()
    &&& forall|i: int|
        0 <= i < groups.len() ==> (#[trigger] decoded[i]).cohort.0 == groups[i].cohort
            && decoded[i].record_count == groups[i].record_count && decoded[i].structural@
            == groups[i].structural()
}

/// Decompresses every group of a pack.
pub fn decode_ingest_groups(payload: &[u8]) -> (decoded: TelemetryResult<Vec<DecodedIngestGroup>>)
    ensures
        match decoded {
            Ok(decoded) => payload@.len() >= 8 && match pack_content(
                payload@,
                Reading::Frames,
                declared_records(payload@),
            ) {
                Ok(walk) => decoded_as(decoded@, walk.groups),
                Err(_) => false,
            },
            Err(error) => if payload@.len() < 8 {
                pack_reports(error, PackFault::Truncated)
            } else {
                match pack_content(payload@, Reading::Frames, declared_records(payload@)) {
                    Ok(_) => false,
                    Err(fault) => pack_reports(error, fault),
                }
            },
        },
{
    if payload.len() < 8 {
        return Err(
            TelemetryError::InvalidBlockEncoding("compressed ingest pack header is truncated"),
        );
    }
    let expected = read_u32(payload, 4);
    let count = open_pack(payload, expected)?;
    let mut decoded: Vec<DecodedIngestGroup> = Vec::new();
    let mut done: u16 = 0;
    let mut at: usize = INGEST_PACK_HEADER_BYTES;
    let mut observed: u64 = 0;
    let ghost mut walk = walk_groups(payload@, Reading::Frames, 0)->Ok_0;
    while done < count
        invariant
            done <= count,
            payload@.len() >= 8,
            expected == declared_records(payload@),
            count == declared_groups(payload@),
            header_fault(payload@, expected) is None,
            at <= payload@.len(),
            walk_groups(payload@, Reading::Frames, done as nat) == Ok::<PackWalk, PackFault>(walk),
            walk.at == at,
            observed == group_records(walk.groups),
            observed <= done * 0x1_0000_0000,
            decoded_as(decoded@, walk.groups),
        decreases count - done,
    {
        proof {
            lemma_fault_is_final(payload@, Reading::Frames, (done + 1) as nat, count as nat);
        }
        let group = read_group(payload, at)?;
        let ghost content = group.content(payload@);
        let structural = decompress_frame(
            vstd::slice::slice_subrange(payload, group.start, group.end),
            group.structural_bytes as usize,
        )?;
        decoded.push(
            DecodedIngestGroup {
                cohort: CompressionCohortId::new(group.cohort),
                record_count: group.record_count,
                structural,
            },
        );
        proof {
            assert(walk.groups.push(content).drop_last() =~= walk.groups);
            walk =
            PackWalk {
                groups: walk.groups.push(content),
                at: walk.at + 40 + content.frame.len(),
                ..walk
            };
        }
        observed = observed + group.record_count as u64;
        at = group.end;
        done = done + 1;
    }
    if at != payload.len() || observed != expected as u64 || (expected > 0 && count == 0) {
        return Err(
            TelemetryError::InvalidBlockEncoding("compressed ingest pack totals are invalid"),
        );
    }
    Ok(decoded)
}

/// Reads the header of a sidecar.
fn open_live(context: &[u8], expected_group_count: u16) -> (checked: TelemetryResult<()>)
    ensures
        match checked {
            Ok(_) => live_header_fault(context@, expected_group_count) is None && context@.len()
                >= 8,
            Err(error) => live_header_fault(context@, expected_group_count) is Some && pack_reports(
                error,
                live_header_fault(context@, expected_group_count)->0,
            ),
        },
{
    if context.len() < TRANSIENT_PACK_HEADER_BYTES || !is_live_context(context) || context[6] != 0
        || context[7] != 0 {
        return Err(TelemetryError::InvalidBlockEncoding("invalid transient ingest pack header"));
    }
    if read_u16(context, 4) != expected_group_count {
        return Err(TelemetryError::InvalidBlockEncoding("transient ingest group count mismatch"));
    }
    Ok(())
}

/// Whether bytes start as a sidecar does.
pub open spec fn names_live(context: Seq<u8>) -> bool {
    context.len() >= 4 && context.subrange(0, 4) == live_magic()
}

/// Whether bytes start as a sidecar does.
pub fn is_live_context(context: &[u8]) -> (named: bool)
    ensures
        named == names_live(context@),
{
    let named = context.len() >= 4 && context[0] == 0x53 && context[1] == 0x4c && context[2] == 0x54
        && context[3] == 0x31;
    proof {
        if named {
            assert(context@.subrange(0, 4) =~= live_magic());
        } else if names_live(context@) {
            assert(context@.subrange(0, 4)[0] == live_magic()[0]);
            assert(context@.subrange(0, 4)[1] == live_magic()[1]);
            assert(context@.subrange(0, 4)[2] == live_magic()[2]);
            assert(context@.subrange(0, 4)[3] == live_magic()[3]);
        }
    }
    named
}

/// Reads the sidecar group that starts at `at`.
fn read_live(context: &[u8], at: usize) -> (group: TelemetryResult<TransientGroup>)
    requires
        at <= context@.len(),
    ensures
        match group {
            Ok(group) => {
                &&& live_at(context@, at as int) == Ok::<LiveContent, PackFault>(
                    group.content(context@),
                )
                &&& group.start == at + 20
                &&& group.start <= group.end <= context@.len()
            },
            Err(error) => match live_at(context@, at as int) {
                Err(fault) => pack_reports(error, fault),
                Ok(_) => false,
            },
        },
{
    assert(context.len() == context@.len());
    if context.len() - at < TRANSIENT_GROUP_HEADER_BYTES {
        return Err(
            TelemetryError::InvalidBlockEncoding("transient ingest group header is truncated"),
        );
    }
    let size = read_u32(context, at + 16) as usize;
    let start = at + TRANSIENT_GROUP_HEADER_BYTES;
    if context.len() - start < size {
        return Err(
            TelemetryError::InvalidBlockEncoding("transient ingest index payload is truncated"),
        );
    }
    Ok(
        TransientGroup {
            cohort: read_u64(context, at),
            record_count: read_u32(context, at + 8),
            structural_bytes: read_u32(context, at + 12),
            start,
            end: start + size,
        },
    )
}

impl IndexedIngestFrame {
    /// Whether this frame is that group.
    pub open spec fn frames(&self, group: GroupContent) -> bool {
        &&& self.frame_id == 0
        &&& self.cohort.0 == group.cohort
        &&& self.record_count == group.record_count
        &&& self.structural_bytes == group.structural_bytes
        &&& self.min_timestamp_unix_nanos == group.earliest
        &&& self.max_timestamp_unix_nanos == group.latest
        &&& self.compressed@ == group.frame
    }
}

/// How far a pack is read when a sidecar may come with it.
pub open spec fn frame_reading(transient_context: Option<&[u8]>) -> Reading {
    match transient_context {
        Some(context) => if names_live(context@) {
            Reading::Live(context@)
        } else {
            Reading::Frames
        },
        None => Reading::Frames,
    }
}

/// The frames of a pack, each with the place of its index: the sidecar where
/// one was read, else the decompressed group.
pub open spec fn framed_as(
    frames: Seq<IndexedIngestFrame>,
    reading: Reading,
    walk: PackWalk,
) -> bool {
    &&& frames.len() == walk.groups.len()
    &&& forall|i: int| 0 <= i < frames.len() ==> (#[trigger] frames[i]).frames(walk.groups[i])
    &&& match reading {
        Reading::Live(_) => frames.len() == walk.lives.len() && forall|i: int|
            0 <= i < frames.len() ==> match (#[trigger] frames[i]).index {
                FrameIndexSource::Live(index) => index@ == walk.lives[i].index,
                FrameIndexSource::Encoded(_) => false,
            },
        _ => forall|i: int|
            0 <= i < frames.len() ==> match (#[trigger] frames[i]).index {
                FrameIndexSource::Live(_) => false,
                FrameIndexSource::Encoded(structural) => structural@
                    == walk.groups[i].structural(),
            },
    }
}

/// Reads the groups of a pack as frames that still hold compressed bytes.
pub fn decode_indexed_ingest_frames(
    payload: &[u8],
    transient_context: Option<&[u8]>,
    expected_record_count: u32,
) -> (frames: TelemetryResult<Vec<IndexedIngestFrame>>)
    ensures
        match frames {
            Ok(frames) => match pack_content(
                payload@,
                frame_reading(transient_context),
                expected_record_count,
            ) {
                Ok(walk) => framed_as(frames@, frame_reading(transient_context), walk),
                Err(_) => false,
            },
            Err(error) => match pack_content(
                payload@,
                frame_reading(transient_context),
                expected_record_count,
            ) {
                Ok(_) => false,
                Err(fault) => pack_reports(error, fault),
            },
        },
{
    let count = open_pack(payload, expected_record_count)?;
    let live = match transient_context {
        Some(context) => if is_live_context(context) {
            open_live(context, count)?;
            Some(context)
        } else {
            None
        },
        None => None,
    };
    let ghost reading = frame_reading(transient_context);
    let mut frames: Vec<IndexedIngestFrame> = Vec::new();
    let mut done: u16 = 0;
    let mut at: usize = INGEST_PACK_HEADER_BYTES;
    let mut live_position: usize = TRANSIENT_PACK_HEADER_BYTES;
    let mut observed: u64 = 0;
    let ghost mut walk = walk_groups(payload@, reading, 0)->Ok_0;
    while done < count
        invariant
            done <= count,
            reading == frame_reading(transient_context),
            match live {
                Some(context) => reading == Reading::Live(context@) && live_header_fault(
                    context@,
                    count,
                ) is None && live_position <= context@.len(),
                None => reading == Reading::Frames,
            },
            count == declared_groups(payload@),
            header_fault(payload@, expected_record_count) is None,
            at <= payload@.len(),
            walk_groups(payload@, reading, done as nat) == Ok::<PackWalk, PackFault>(walk),
            walk.at == at,
            walk.live_at == live_position,
            observed == group_records(walk.groups),
            observed <= done * 0x1_0000_0000,
            framed_as(frames@, reading, walk),
        decreases count - done,
    {
        proof {
            lemma_fault_is_final(payload@, reading, (done + 1) as nat, count as nat);
        }
        let group = read_group(payload, at)?;
        let ghost content = group.content(payload@);
        let frame = vstd::slice::slice_subrange(payload, group.start, group.end);
        let ghost mut next = PackWalk {
            groups: walk.groups.push(content),
            at: walk.at + 40 + content.frame.len(),
            ..walk
        };
        let index = match live {
            Some(context) => {
                let group_live = read_live(context, live_position)?;
                let ghost live_content = group_live.content(context@);
                if group_live.cohort != group.cohort || group_live.record_count
                    != group.record_count || group_live.structural_bytes != group.structural_bytes {
                    return Err(
                        TelemetryError::InvalidBlockEncoding(
                            "transient ingest group disagrees with durable group",
                        ),
                    );
                }
                proof {
                    next =
                    PackWalk {
                        lives: walk.lives.push(live_content),
                        live_at: walk.live_at + 20 + live_content.index.len(),
                        ..next
                    };
                }
                live_position = group_live.end;
                FrameIndexSource::Live(
                    vstd::slice::slice_to_vec(
                        vstd::slice::slice_subrange(context, group_live.start, group_live.end),
                    ),
                )
            },
            None => FrameIndexSource::Encoded(
                decompress_frame(frame, group.structural_bytes as usize)?,
            ),
        };
        frames.push(
            IndexedIngestFrame {
                frame_id: 0,
                cohort: CompressionCohortId::new(group.cohort),
                record_count: group.record_count,
                structural_bytes: group.structural_bytes as usize,
                min_timestamp_unix_nanos: group.min_timestamp_unix_nanos,
                max_timestamp_unix_nanos: group.max_timestamp_unix_nanos,
                compressed: vstd::slice::slice_to_vec(frame),
                index,
            },
        );
        proof {
            assert(walk.groups.push(content).drop_last() =~= walk.groups);
            walk = next;
        }
        observed = observed + group.record_count as u64;
        at = group.end;
        done = done + 1;
    }
    if at != payload.len() || observed != expected_record_count as u64 || (expected_record_count > 0
        && count == 0) {
        return Err(
            TelemetryError::InvalidBlockEncoding("compressed ingest pack totals are invalid"),
        );
    }
    match live {
        Some(context) => {
            if live_position != context.len() {
                return Err(
                    TelemetryError::InvalidBlockEncoding("transient ingest pack totals are invalid"),
                );
            }
        },
        None => {},
    }
    Ok(frames)
}

/// Decompresses one frame.
pub fn decompress_indexed_ingest_frame(frame: &IndexedIngestFrame) -> (structural: TelemetryResult<
    Vec<u8>,
>)
    requires
        frame.structural_bytes <= isize::MAX,
    ensures
        match structural {
            Ok(structural) => zstd_content(frame.compressed@) == Some(structural@)
                && structural@.len() == frame.structural_bytes,
            Err(error) => match zstd_content(frame.compressed@) {
                None => pack_reports(error, PackFault::Frame),
                Some(content) => if content.len() < frame.structural_bytes {
                    pack_reports(error, PackFault::StructuralLength)
                } else {
                    content.len() > frame.structural_bytes && pack_reports(
                        error,
                        PackFault::Oversized,
                    )
                },
            },
        },
{
    decompress_frame(frame.compressed.as_slice(), frame.structural_bytes)
}

/// Accepts a decoded query index only where it covers every record of its
/// frame.
pub fn check_frame_index(frame: &IndexedIngestFrame, indexed_records: u32) -> (checked:
    TelemetryResult<()>)
    ensures
        match checked {
            Ok(_) => indexed_records == frame.record_count,
            Err(error) => indexed_records != frame.record_count && (error matches
                TelemetryError::InvalidBlockEncoding(message) && message@
                == "compressed ingest frame index record count mismatch"@),
        },
{
    if indexed_records != frame.record_count {
        return Err(
            TelemetryError::InvalidBlockEncoding(
                "compressed ingest frame index record count mismatch",
            ),
        );
    }
    Ok(())
}

/// Earliest of some times.
pub open spec fn earliest_of(times: Seq<u64>) -> u64
    decreases times.len(),
{
    if times.len() <= 1 {
        times[0]
    } else if times.last() < earliest_of(times.drop_last()) {
        times.last()
    } else {
        earliest_of(times.drop_last())
    }
}

/// Latest of some times.
pub open spec fn latest_of(times: Seq<u64>) -> u64
    decreases times.len(),
{
    if times.len() <= 1 {
        times[0]
    } else if times.last() > latest_of(times.drop_last()) {
        times.last()
    } else {
        latest_of(times.drop_last())
    }
}

/// The times of a group lie between its earliest and its latest, and both occur.
pub proof fn times_are_bounded(times: Seq<u64>)
    requires
        times.len() > 0,
    ensures
        times.contains(earliest_of(times)),
        times.contains(latest_of(times)),
        forall|i: int|
            0 <= i < times.len() ==> earliest_of(times) <= #[trigger] times[i] <= latest_of(times),
    decreases times.len(),
{
    if times.len() == 1 {
        assert(times[0] == earliest_of(times));
    } else {
        let shorter = times.drop_last();
        times_are_bounded(shorter);
        let first = choose|i: int| 0 <= i < shorter.len() && shorter[i] == earliest_of(shorter);
        let last = choose|i: int| 0 <= i < shorter.len() && shorter[i] == latest_of(shorter);
        assert(times[first] == earliest_of(shorter));
        assert(times[last] == latest_of(shorter));
        assert(times[times.len() - 1] == times.last());
        assert forall|i: int| 0 <= i < times.len() implies earliest_of(times) <= #[trigger] times[i]
            <= latest_of(times) by {
            if i < times.len() - 1 {
                assert(shorter[i] == times[i]);
            }
        }
    }
}

impl IngestGroupInput {
    /// What the pack holds of this group, once compressed to `frame`.
    pub open spec fn packed(&self, frame: Seq<u8>) -> GroupContent {
        GroupContent {
            cohort: self.cohort.0,
            record_count: self.timestamps_unix_nanos@.len() as u32,
            structural_bytes: self.structural@.len() as u32,
            checksum: short_checksum(frame),
            earliest: earliest_of(self.timestamps_unix_nanos@),
            latest: latest_of(self.timestamps_unix_nanos@),
            frame,
        }
    }

    /// What the sidecar holds of this group.
    pub open spec fn live(&self) -> LiveContent {
        LiveContent {
            cohort: self.cohort.0,
            record_count: self.timestamps_unix_nanos@.len() as u32,
            structural_bytes: self.structural@.len() as u32,
            index: self.embedded_index@,
        }
    }

    /// Whether every length of this group fits its field.
    pub open spec fn fits(&self) -> bool {
        &&& self.structural@.len() <= MAX_INGEST_STRUCTURAL_BYTES
        &&& self.timestamps_unix_nanos@.len() <= u32::MAX
        &&& self.embedded_index@.len() <= u32::MAX
    }
}

/// The groups of a pack whose inputs were compressed to these frames.
pub open spec fn packed_groups(groups: Seq<IngestGroupInput>, frames: Seq<Seq<u8>>) -> Seq<
    GroupContent,
> {
    Seq::new(groups.len(), |i: int| groups[i].packed(frames[i]))
}

/// The groups of a sidecar.
pub open spec fn live_groups(groups: Seq<IngestGroupInput>) -> Seq<LiveContent> {
    Seq::new(groups.len(), |i: int| groups[i].live())
}

/// Whether each frame holds its group.
pub open spec fn frames_hold(groups: Seq<IngestGroupInput>, frames: Seq<Seq<u8>>) -> bool {
    &&& frames.len() == groups.len()
    &&& forall|i: int|
        0 <= i < groups.len() ==> zstd_content(#[trigger] frames[i]) == Some(
            groups[i].structural@,
        )
}

/// Whether each frame is one that its group is compressed to.
pub open spec fn frames_compress(groups: Seq<IngestGroupInput>, frames: Seq<Seq<u8>>) -> bool {
    &&& frames_hold(groups, frames)
    &&& forall|i: int|
        0 <= i < groups.len() ==> zstd_frames(
            groups[i].structural@,
            INGEST_PACK_ZSTD_LEVEL,
        ).contains(#[trigger] frames[i])
}

/// Records of all the inputs.
pub open spec fn input_records(groups: Seq<IngestGroupInput>) -> nat
    decreases groups.len(),
{
    if groups.len() == 0 {
        0
    } else {
        input_records(groups.drop_last()) + groups.last().timestamps_unix_nanos@.len()
    }
}

/// The bytes of a pack whose inputs were compressed to these frames.
pub open spec fn pack_wire(
    record_count: u32,
    groups: Seq<IngestGroupInput>,
    frames: Seq<Seq<u8>>,
) -> Seq<u8> {
    pack_header(record_count, groups.len() as u16) + groups_wire(packed_groups(groups, frames))
}

/// The bytes of a sidecar.
pub open spec fn live_wire(groups: Seq<IngestGroupInput>) -> Seq<u8> {
    live_header(groups.len() as u16) + lives_wire(live_groups(groups))
}

/// Whether the groups of a pack fit their fields.
pub open spec fn inputs_fit(groups: Seq<IngestGroupInput>) -> bool {
    &&& groups.len() <= u16::MAX
    &&& forall|i: int| 0 <= i < groups.len() ==> (#[trigger] groups[i]).fits()
}

/// What preparing a pack gives. The compressor decides whether a frame comes
/// back and which one it is; every such frame holds its group.
pub open spec fn prepared_as(
    prepared: TelemetryResult<PreparedIngestPack>,
    record_count: u32,
    groups: Seq<IngestGroupInput>,
    max_frame_bytes: usize,
) -> bool {
    match prepared {
        Ok(pack) => {
            &&& inputs_fit(groups)
            &&& exists|frames: Seq<Seq<u8>>| #[trigger]
                frames_compress(groups, frames) && pack.payload@ == pack_wire(
                    record_count,
                    groups,
                    frames,
                )
            &&& pack.transient_context@ == live_wire(groups)
            &&& pack.payload@.len() <= max_frame_bytes
            &&& pack.transient_context@.len() <= max_frame_bytes
        },
        Err(TelemetryError::RecordTooLarge) => {
            ||| !inputs_fit(groups)
            ||| live_wire(groups).len() > max_frame_bytes
            ||| exists|frames: Seq<Seq<u8>>| #[trigger]
                frames_compress(groups, frames) && pack_wire(record_count, groups, frames).len()
                    > max_frame_bytes
            ||| exists|i: int, frame: Seq<u8>|
                0 <= i < groups.len() && #[trigger] zstd_frames(
                    groups[i].structural@,
                    INGEST_PACK_ZSTD_LEVEL,
                ).contains(frame) && frame.len() > u32::MAX
        },
        Err(TelemetryError::CompressionFailed(text)) => exists|i: int|
            0 <= i < groups.len() && #[trigger] zstd_refuses(
                groups[i].structural@,
                INGEST_PACK_ZSTD_LEVEL,
                text@,
            ),
        Err(_) => false,
    }
}

/// Finds the earliest and the latest of some times.
fn time_range(times: &Vec<u64>) -> (range: (u64, u64))
    requires
        times@.len() > 0,
    ensures
        range.0 == earliest_of(times@),
        range.1 == latest_of(times@),
{
    let mut earliest = times[0];
    let mut latest = times[0];
    let mut next: usize = 1;
    assert(times@.take(1)[0] == times@[0]);
    while next < times.len()
        invariant
            1 <= next <= times@.len(),
            earliest == earliest_of(times@.take(next as int)),
            latest == latest_of(times@.take(next as int)),
        decreases times@.len() - next,
    {
        assert(times@.take(next + 1).drop_last() =~= times@.take(next as int));
        if times[next] < earliest {
            earliest = times[next];
        }
        if times[next] > latest {
            latest = times[next];
        }
        next = next + 1;
    }
    assert(times@.take(next as int) =~= times@);
    (earliest, latest)
}

/// Compresses one group and appends it to a pack and to its sidecar.
fn append_ingest_group(
    encoded: &mut Vec<u8>,
    transient_context: &mut Vec<u8>,
    group: &IngestGroupInput,
) -> (frame: TelemetryResult<Ghost<Seq<u8>>>)
    requires
        group.timestamps_unix_nanos@.len() > 0,
    ensures
        match frame {
            Ok(frame) => {
                &&& group.fits()
                &&& zstd_content(frame@) == Some(group.structural@)
                &&& zstd_frames(group.structural@, INGEST_PACK_ZSTD_LEVEL).contains(frame@)
                &&& frame@.len() <= u32::MAX
                &&& final(encoded)@ == old(encoded)@ + group.packed(frame@).wire()
                &&& final(transient_context)@ == old(transient_context)@ + group.live().wire()
            },
            Err(TelemetryError::RecordTooLarge) => !group.fits() || exists|frame: Seq<u8>| #[trigger]
                zstd_frames(group.structural@, INGEST_PACK_ZSTD_LEVEL).contains(frame)
                    && frame.len() > u32::MAX,
            Err(TelemetryError::CompressionFailed(text)) => group.structural@.len()
                <= MAX_INGEST_STRUCTURAL_BYTES && zstd_refuses(
                group.structural@,
                INGEST_PACK_ZSTD_LEVEL,
                text@,
            ),
            Err(_) => false,
        },
{
    if group.structural.len() > MAX_INGEST_STRUCTURAL_BYTES {
        return Err(TelemetryError::RecordTooLarge);
    }
    let frame = match zstd_compress(group.structural.as_slice(), INGEST_PACK_ZSTD_LEVEL) {
        Ok(frame) => frame,
        Err(text) => {
            return Err(TelemetryError::CompressionFailed(text));
        },
    };
    if group.timestamps_unix_nanos.len() as u64 > u32::MAX as u64
        || group.embedded_index.len() as u64 > u32::MAX as u64 {
        return Err(TelemetryError::RecordTooLarge);
    }
    if frame.len() as u64 > u32::MAX as u64 {
        assert(zstd_frames(group.structural@, INGEST_PACK_ZSTD_LEVEL).contains(frame@)
            && frame@.len() > u32::MAX);
        return Err(TelemetryError::RecordTooLarge);
    }
    let record_count = group.timestamps_unix_nanos.len() as u32;
    push_u64(transient_context, group.cohort.get());
    push_u32(transient_context, record_count);
    push_u32(transient_context, group.structural.len() as u32);
    push_u32(transient_context, group.embedded_index.len() as u32);
    push_bytes(transient_context, group.embedded_index.as_slice());
    assert(transient_context@ =~= old(transient_context)@ + group.live().wire());
    let (earliest, latest) = time_range(&group.timestamps_unix_nanos);
    push_u64(encoded, group.cohort.get());
    push_u32(encoded, record_count);
    push_u32(encoded, group.structural.len() as u32);
    push_u32(encoded, frame.len() as u32);
    push_u32(encoded, payload_checksum(frame.as_slice()));
    push_u64(encoded, earliest);
    push_u64(encoded, latest);
    push_bytes(encoded, frame.as_slice());
    assert(encoded@ =~= old(encoded)@ + group.packed(frame@).wire());
    Ok(Ghost(frame@))
}

/// Packs groups of records, compressing each.
pub fn prepare_grouped_ingest_pack(
    record_count: u32,
    groups: &Vec<IngestGroupInput>,
    max_frame_bytes: usize,
) -> (prepared: TelemetryResult<PreparedIngestPack>)
    requires
        forall|i: int| 0 <= i < groups@.len() ==> (#[trigger] groups@[i]).timestamps_unix_nanos@.len() > 0,
    ensures
        prepared_as(prepared, record_count, groups@, max_frame_bytes),
{
    if groups.len() > 0xffff {
        return Err(TelemetryError::RecordTooLarge);
    }
    let mut encoded: Vec<u8> = Vec::new();
    encoded.push(0x53);
    encoded.push(0x4c);
    encoded.push(0x57);
    encoded.push(0x31);
    push_u32(&mut encoded, record_count);
    push_u16(&mut encoded, groups.len() as u16);
    encoded.push(0);
    encoded.push(0);
    let mut transient_context: Vec<u8> = Vec::new();
    transient_context.push(0x53);
    transient_context.push(0x4c);
    transient_context.push(0x54);
    transient_context.push(0x31);
    push_u16(&mut transient_context, groups.len() as u16);
    transient_context.push(0);
    transient_context.push(0);
    let ghost count = groups@.len() as u16;
    let ghost mut frames: Seq<Seq<u8>> = Seq::empty();
    assert(encoded@ =~= pack_header(record_count, count));
    assert(transient_context@ =~= live_header(count));
    assert(packed_groups(groups@.take(0), frames) =~= Seq::empty());
    assert(live_groups(groups@.take(0)) =~= Seq::empty());
    assert(encoded@ =~= pack_header(record_count, count) + groups_wire(
        packed_groups(groups@.take(0), frames),
    ));
    assert(transient_context@ =~= live_header(count) + lives_wire(live_groups(groups@.take(0))));
    let mut next: usize = 0;
    while next < groups.len()
        invariant
            next <= groups@.len() <= 0xffff,
            count == groups@.len(),
            forall|i: int|
                0 <= i < groups@.len() ==> (#[trigger] groups@[i]).timestamps_unix_nanos@.len() > 0,
            frames_compress(groups@.take(next as int), frames),
            forall|i: int| 0 <= i < next ==> (#[trigger] groups@[i]).fits(),
            encoded@ == pack_header(record_count, count) + groups_wire(
                packed_groups(groups@.take(next as int), frames),
            ),
            transient_context@ == live_header(count) + lives_wire(
                live_groups(groups@.take(next as int)),
            ),
        decreases groups@.len() - next,
    {
        let group = &groups[next];
        let ghost before = encoded@;
        let ghost live_before = transient_context@;
        let appended = append_ingest_group(&mut encoded, &mut transient_context, group);
        match appended {
            Ok(frame) => {
                proof {
                    let done = groups@.take(next as int);
                    let longer = groups@.take(next + 1);
                    let more = frames.push(frame@);
                    assert(longer.last() == *group);
                    assert(packed_groups(longer, more).drop_last() =~= packed_groups(done, frames));
                    assert(packed_groups(longer, more).last() == group.packed(frame@));
                    assert(live_groups(longer).drop_last() =~= live_groups(done));
                    assert(live_groups(longer).last() == group.live());
                    assert(encoded@ =~= pack_header(record_count, count) + groups_wire(
                        packed_groups(longer, more),
                    ));
                    assert(transient_context@ =~= live_header(count) + lives_wire(
                        live_groups(longer),
                    ));
                    assert(frames_hold(longer, more)) by {
                        assert forall|i: int| 0 <= i < longer.len() implies zstd_content(
                            #[trigger] more[i],
                        ) == Some(longer[i].structural@) by {
                            if i < next {
                                assert(more[i] == frames[i]);
                                assert(longer[i] == done[i]);
                            }
                        }
                    }
                    assert forall|i: int| 0 <= i < longer.len() implies zstd_frames(
                        longer[i].structural@,
                        INGEST_PACK_ZSTD_LEVEL,
                    ).contains(#[trigger] more[i]) by {
                        if i < next {
                            assert(more[i] == frames[i]);
                            assert(longer[i] == done[i]);
                        }
                    }
                    frames = more;
                }
            },
            Err(error) => {
                assert(groups@[next as int] == *group);
                return Err(error);
            },
        }
        next = next + 1;
    }
    assert(groups@.take(next as int) =~= groups@);
    assert(inputs_fit(groups@));
    assert(frames_compress(groups@, frames) && encoded@ == pack_wire(
        record_count,
        groups@,
        frames,
    ));
    if encoded.len() > max_frame_bytes {
        return Err(TelemetryError::RecordTooLarge);
    }
    if transient_context.len() > max_frame_bytes {
        return Err(TelemetryError::RecordTooLarge);
    }
    Ok(PreparedIngestPack { payload: encoded, transient_context })
}

/// The groups that a single cohort makes: none where it has no records.
pub open spec fn single_group(group: IngestGroupInput) -> Seq<IngestGroupInput> {
    if group.timestamps_unix_nanos@.len() == 0 {
        Seq::empty()
    } else {
        seq![group]
    }
}

/// Packs the records of one cohort.
pub fn prepare_single_cohort_ingest_pack(group: IngestGroupInput, max_frame_bytes: usize) -> (prepared:
    TelemetryResult<PreparedIngestPack>)
    ensures
        if group.timestamps_unix_nanos@.len() > u32::MAX {
            prepared matches Err(TelemetryError::RecordTooLarge)
        } else {
            prepared_as(
                prepared,
                group.timestamps_unix_nanos@.len() as u32,
                single_group(group),
                max_frame_bytes,
            )
        },
{
    let ghost alone = single_group(group);
    if group.timestamps_unix_nanos.len() as u64 > u32::MAX as u64 {
        return Err(TelemetryError::RecordTooLarge);
    }
    let record_count = group.timestamps_unix_nanos.len() as u32;
    let mut groups: Vec<IngestGroupInput> = Vec::new();
    if record_count > 0 {
        groups.push(group);
    }
    assert(groups@ =~= alone);
    prepare_grouped_ingest_pack(record_count, &groups, max_frame_bytes)
}

/// A group is read back where its bytes stand.
proof fn lemma_group_at(payload: Seq<u8>, at: int, group: GroupContent)
    requires
        0 <= at,
        at + group.wire().len() <= payload.len(),
        payload.subrange(at, at + group.wire().len()) == group.wire(),
        group.frame.len() <= u32::MAX,
    ensures
        group_at(payload, at) == Ok::<GroupContent, PackFault>(group),
        group.wire().len() == 40 + group.frame.len(),
{
    fields_read_back();
    let wire = group.wire();
    assert(wire.len() == 40 + group.frame.len());
    assert(payload.subrange(at, at + 8) =~= wire.subrange(0, 8));
    assert(wire.subrange(0, 8) =~= spec_u64_to_le_bytes(group.cohort));
    assert(payload.subrange(at + 8, at + 12) =~= wire.subrange(8, 12));
    assert(wire.subrange(8, 12) =~= spec_u32_to_le_bytes(group.record_count));
    assert(payload.subrange(at + 12, at + 16) =~= wire.subrange(12, 16));
    assert(wire.subrange(12, 16) =~= spec_u32_to_le_bytes(group.structural_bytes));
    assert(payload.subrange(at + 16, at + 20) =~= wire.subrange(16, 20));
    assert(wire.subrange(16, 20) =~= spec_u32_to_le_bytes(group.frame.len() as u32));
    assert(payload.subrange(at + 20, at + 24) =~= wire.subrange(20, 24));
    assert(wire.subrange(20, 24) =~= spec_u32_to_le_bytes(group.checksum));
    assert(payload.subrange(at + 24, at + 32) =~= wire.subrange(24, 32));
    assert(wire.subrange(24, 32) =~= spec_u64_to_le_bytes(group.earliest));
    assert(payload.subrange(at + 32, at + 40) =~= wire.subrange(32, 40));
    assert(wire.subrange(32, 40) =~= spec_u64_to_le_bytes(group.latest));
    assert(payload.subrange(at + 40, at + 40 + group.frame.len()) =~= wire.subrange(
        40,
        40 + group.frame.len() as int,
    ));
    assert(wire.subrange(40, 40 + group.frame.len() as int) =~= group.frame);
}

/// A sidecar group is read back where its bytes stand.
proof fn lemma_live_at(context: Seq<u8>, at: int, live: LiveContent)
    requires
        0 <= at,
        at + live.wire().len() <= context.len(),
        context.subrange(at, at + live.wire().len()) == live.wire(),
        live.index.len() <= u32::MAX,
    ensures
        live_at(context, at) == Ok::<LiveContent, PackFault>(live),
        live.wire().len() == 20 + live.index.len(),
{
    fields_read_back();
    let wire = live.wire();
    assert(wire.len() == 20 + live.index.len());
    assert(context.subrange(at, at + 8) =~= wire.subrange(0, 8));
    assert(wire.subrange(0, 8) =~= spec_u64_to_le_bytes(live.cohort));
    assert(context.subrange(at + 8, at + 12) =~= wire.subrange(8, 12));
    assert(wire.subrange(8, 12) =~= spec_u32_to_le_bytes(live.record_count));
    assert(context.subrange(at + 12, at + 16) =~= wire.subrange(12, 16));
    assert(wire.subrange(12, 16) =~= spec_u32_to_le_bytes(live.structural_bytes));
    assert(context.subrange(at + 16, at + 20) =~= wire.subrange(16, 20));
    assert(wire.subrange(16, 20) =~= spec_u32_to_le_bytes(live.index.len() as u32));
    assert(context.subrange(at + 20, at + 20 + live.index.len()) =~= wire.subrange(
        20,
        20 + live.index.len() as int,
    ));
    assert(wire.subrange(20, 20 + live.index.len() as int) =~= live.index);
}

/// The first groups of a pack come first in its bytes.
proof fn lemma_groups_prefix(groups: Seq<GroupContent>, count: int)
    requires
        0 <= count <= groups.len(),
    ensures
        groups_wire(groups.take(count)).len() <= groups_wire(groups).len(),
        groups_wire(groups).take(groups_wire(groups.take(count)).len() as int) == groups_wire(
            groups.take(count),
        ),
    decreases groups.len(),
{
    if count == groups.len() {
        assert(groups.take(count) =~= groups);
        assert(groups_wire(groups).take(groups_wire(groups).len() as int) =~= groups_wire(groups));
    } else {
        let shorter = groups.drop_last();
        lemma_groups_prefix(shorter, count);
        assert(shorter.take(count) =~= groups.take(count));
        let length = groups_wire(groups.take(count)).len() as int;
        assert(groups_wire(groups).take(length) =~= groups_wire(shorter).take(length));
    }
}

/// The first groups of a sidecar come first in its bytes.
proof fn lemma_lives_prefix(groups: Seq<LiveContent>, count: int)
    requires
        0 <= count <= groups.len(),
    ensures
        lives_wire(groups.take(count)).len() <= lives_wire(groups).len(),
        lives_wire(groups).take(lives_wire(groups.take(count)).len() as int) == lives_wire(
            groups.take(count),
        ),
    decreases groups.len(),
{
    if count == groups.len() {
        assert(groups.take(count) =~= groups);
        assert(lives_wire(groups).take(lives_wire(groups).len() as int) =~= lives_wire(groups));
    } else {
        let shorter = groups.drop_last();
        lemma_lives_prefix(shorter, count);
        assert(shorter.take(count) =~= groups.take(count));
        let length = lives_wire(groups.take(count)).len() as int;
        assert(lives_wire(groups).take(length) =~= lives_wire(shorter).take(length));
    }
}

/// Bytes after a prefix stand where the prefix ends.
proof fn lemma_stands_after(whole: Seq<u8>, head: Seq<u8>, body: Seq<u8>, upto: Seq<u8>, item: Seq<u8>)
    requires
        whole == head + body,
        upto.len() + item.len() <= body.len(),
        body.take((upto.len() + item.len()) as int) == upto + item,
    ensures
        whole.subrange(
            (head.len() + upto.len()) as int,
            (head.len() + upto.len() + item.len()) as int,
        ) == item,
{
    let at = (head.len() + upto.len()) as int;
    let found = whole.subrange(at, at + item.len());
    let taken = body.take((upto.len() + item.len()) as int);
    assert forall|i: int| 0 <= i < item.len() implies found[i] == item[i] by {
        let place = upto.len() as int + i;
        assert(found[i] == whole[at + i]);
        assert(whole[at + i] == body[place]);
        assert(taken[place] == body[place]);
        assert((upto + item)[place] == item[i]);
    }
    assert(found =~= item);
}

/// What was read of a pack after its first groups.
pub open spec fn walked(
    groups: Seq<GroupContent>,
    lives: Seq<LiveContent>,
    reading: Reading,
    count: int,
) -> PackWalk {
    PackWalk {
        groups: groups.take(count),
        lives: if reading is Live {
            lives.take(count)
        } else {
            Seq::empty()
        },
        at: 12 + groups_wire(groups.take(count)).len() as int,
        live_at: if reading is Live {
            8 + lives_wire(lives.take(count)).len() as int
        } else {
            8
        },
    }
}

/// Groups of a well-formed pack are read one by one.
proof fn lemma_walk(
    payload: Seq<u8>,
    reading: Reading,
    record_count: u32,
    groups: Seq<GroupContent>,
    lives: Seq<LiveContent>,
    count: int,
)
    requires
        0 <= count <= groups.len() <= u16::MAX,
        lives.len() == groups.len(),
        payload == pack_header(record_count, groups.len() as u16) + groups_wire(groups),
        reading matches Reading::Live(context) ==> context == live_header(groups.len() as u16)
            + lives_wire(lives),
        forall|i: int|
            0 <= i < groups.len() ==> (#[trigger] groups[i]).valid() && groups[i].frame_fault() is None
                && groups[i].frame.len() <= u32::MAX && lives[i].describes(groups[i])
                && lives[i].index.len() <= u32::MAX,
    ensures
        walk_groups(payload, reading, count as nat) == Ok::<PackWalk, PackFault>(
            walked(groups, lives, reading, count),
        ),
    decreases count,
{
    fields_read_back();
    if count == 0 {
        assert(groups.take(0) =~= Seq::<GroupContent>::empty());
        assert(lives.take(0) =~= Seq::<LiveContent>::empty());
    } else {
        let before = count - 1;
        lemma_walk(payload, reading, record_count, groups, lives, before);
        let header = pack_header(record_count, groups.len() as u16);
        let group = groups[before];
        let live = lives[before];
        assert(header.len() == 12);
        lemma_groups_prefix(groups, count);
        assert(groups.take(count).drop_last() =~= groups.take(before));
        assert(groups.take(count).last() == group);
        let upto = groups_wire(groups.take(before));
        assert(groups_wire(groups.take(count)) == upto + group.wire());
        lemma_stands_after(payload, header, groups_wire(groups), upto, group.wire());
        lemma_group_at(payload, (12 + upto.len()) as int, group);
        assert(groups.take(before).push(group) =~= groups.take(count));
        if reading is Live {
            let context = reading->Live_0;
            let live_head = live_header(groups.len() as u16);
            assert(live_head.len() == 8);
            lemma_lives_prefix(lives, count);
            assert(lives.take(count).drop_last() =~= lives.take(before));
            assert(lives.take(count).last() == live);
            let live_upto = lives_wire(lives.take(before));
            assert(lives_wire(lives.take(count)) == live_upto + live.wire());
            lemma_stands_after(context, live_head, lives_wire(lives), live_upto, live.wire());
            lemma_live_at(context, (8 + live_upto.len()) as int, live);
            assert(lives.take(before).push(live) =~= lives.take(count));
        }
    }
}

/// Records are counted alike before and after packing.
proof fn lemma_records_agree(groups: Seq<IngestGroupInput>, frames: Seq<Seq<u8>>)
    requires
        inputs_fit(groups),
        frames.len() == groups.len(),
    ensures
        group_records(packed_groups(groups, frames)) == input_records(groups),
    decreases groups.len(),
{
    if groups.len() > 0 {
        let shorter = groups.drop_last();
        lemma_records_agree(shorter, frames.drop_last());
        assert(packed_groups(groups, frames).drop_last() =~= packed_groups(
            shorter,
            frames.drop_last(),
        ));
        assert(groups.last() == groups[groups.len() - 1]);
    }
}

/// What is packed is read back: a pack of nonempty groups, whatever frames the
/// compressor chose, is accepted with the record count it was made for, and
/// its groups, their structural bytes and their sidecar indexes come out as
/// they went in.
pub proof fn packs_read_back(record_count: u32, groups: Seq<IngestGroupInput>, frames: Seq<Seq<u8>>)
    requires
        inputs_fit(groups),
        frames_hold(groups, frames),
        record_count == input_records(groups),
        forall|i: int|
            0 <= i < groups.len() ==> (#[trigger] groups[i]).timestamps_unix_nanos@.len() > 0
                && groups[i].structural@.len() > 0 && frames[i].len() <= u32::MAX,
    ensures
        ({
            let payload = pack_wire(record_count, groups, frames);
            let contents = packed_groups(groups, frames);
            &&& pack_content(payload, Reading::Headers, record_count) matches Ok(walk)
                && walk.groups == contents
            &&& pack_content(payload, Reading::Frames, record_count) matches Ok(walk)
                && walk.groups == contents
            &&& pack_content(payload, Reading::Live(live_wire(groups)), record_count) matches Ok(
                walk,
            ) && walk.groups == contents && walk.lives == live_groups(groups)
            &&& forall|i: int|
                0 <= i < groups.len() ==> (#[trigger] contents[i]).structural()
                    == groups[i].structural@
        }),
{
    fields_read_back();
    let payload = pack_wire(record_count, groups, frames);
    let contents = packed_groups(groups, frames);
    let lives = live_groups(groups);
    let count = groups.len() as u16;
    let header = pack_header(record_count, count);
    assert(header.len() == 12);
    assert(payload.subrange(0, 4) =~= pack_magic());
    assert(payload.subrange(4, 8) =~= spec_u32_to_le_bytes(record_count));
    assert(payload.subrange(8, 10) =~= spec_u16_to_le_bytes(count));
    assert(payload.subrange(10, 12) =~= seq![0u8, 0u8]);
    assert(payload[10] == payload.subrange(10, 12)[0]);
    assert(payload[11] == payload.subrange(10, 12)[1]);
    assert forall|i: int| 0 <= i < contents.len() implies (#[trigger] contents[i]).valid()
        && contents[i].frame_fault() is None && contents[i].frame.len() <= u32::MAX
        && lives[i].describes(contents[i]) && lives[i].index.len() <= u32::MAX by {
        assert(groups[i].fits());
        assert(zstd_content(frames[i]) == Some(groups[i].structural@));
        times_are_bounded(groups[i].timestamps_unix_nanos@);
    }
    lemma_records_agree(groups, frames);
    if record_count > 0 && groups.len() == 0 {
        assert(input_records(groups) == 0);
    }
    assert(contents.take(contents.len() as int) =~= contents);
    assert(lives.take(lives.len() as int) =~= lives);
    lemma_walk(payload, Reading::Headers, record_count, contents, lives, groups.len() as int);
    lemma_walk(payload, Reading::Frames, record_count, contents, lives, groups.len() as int);
    let context = live_wire(groups);
    assert(live_header(count).len() == 8);
    assert(context.subrange(0, 4) =~= live_magic());
    assert(context.subrange(4, 6) =~= spec_u16_to_le_bytes(count));
    assert(context.subrange(6, 8) =~= seq![0u8, 0u8]);
    assert(context[6] == context.subrange(6, 8)[0]);
    assert(context[7] == context.subrange(6, 8)[1]);
    lemma_walk(payload, Reading::Live(context), record_count, contents, lives, groups.len() as int);
}

} // verus!
