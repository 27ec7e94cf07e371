//! The checksummed `STEL` envelope around every durable append.

use vstd::bytes::{
    spec_u32_from_le_bytes, spec_u32_to_le_bytes, spec_u64_from_le_bytes, spec_u64_to_le_bytes,
};
use vstd::prelude::*;
use vstd::utf8::{decode_utf8, encode_utf8, valid_utf8};

use crate::digest::{blake3_digest, blake3_hash};
use crate::error::{TelemetryError, TelemetryResult};
use crate::model::{signal_tags_read_back, TelemetrySignal};
use crate::text::{decode_text, same_bytes};
use crate::wire::{push_bytes, push_u32, push_u64, read_u32, read_u64};

verus! {

/// Bytes before the first section.
pub const ENVELOPE_HEADER_BYTES: usize = 64;

/// Maximum accepted durable envelope, matching the default OTLP request limit.
pub const MAX_TELEMETRY_ENVELOPE_BYTES: usize = 67_108_864;

/// One checksummed durable telemetry append payload.
#[derive(Debug, PartialEq, Eq)]
pub struct TelemetryEnvelope {
    /// Signal-specific payload kind.
    pub signal: TelemetrySignal,
    /// Authenticated single-tenant identity.
    pub tenant: String,
    /// Number of offsets represented by this envelope.
    pub item_count: u32,
    /// Signal-specific deterministic routing metadata.
    pub routing_metadata: Vec<u8>,
    /// Signal-specific encoded records.
    pub payload: Vec<u8>,
}

/// What an envelope holds.
pub struct EnvelopeContent {
    /// Payload kind.
    pub signal: TelemetrySignal,
    /// Tenant text.
    pub tenant: Seq<char>,
    /// Number of offsets.
    pub item_count: u32,
    /// Routing bytes.
    pub routing_metadata: Seq<u8>,
    /// Payload bytes.
    pub payload: Seq<u8>,
}

/// Why bytes are not an envelope.
pub enum EnvelopeFault {
    /// Too short or too long.
    Length,
    /// Wrong magic.
    Magic,
    /// Unknown version.
    Version,
    /// Reserved bits in use.
    Reserved,
    /// Checksum mismatch.
    Checksum,
    /// Unknown signal tag.
    Signal,
    /// Section lengths beyond the address space.
    TooLarge,
    /// Section lengths that do not add up.
    Sections,
    /// Tenant bytes that are not text.
    TenantText,
    /// Empty tenant.
    EmptyTenant,
    /// No items.
    NoItems,
    /// Empty payload.
    EmptyPayload,
}

/// The four magic bytes, `STEL`.
pub open spec fn envelope_magic() -> Seq<u8> {
    seq![0x53u8, 0x54, 0x45, 0x4c]
}

/// Whether an error reports exactly this fault.
pub open spec fn reports(error: TelemetryError, fault: EnvelopeFault) -> bool {
    let text = match fault {
        EnvelopeFault::Length => "envelope length is outside the supported range"@,
        EnvelopeFault::Magic => "missing STEL envelope magic"@,
        EnvelopeFault::Version => "unsupported STEL envelope version"@,
        EnvelopeFault::Reserved => "nonzero reserved envelope bits"@,
        EnvelopeFault::Checksum => "envelope checksum mismatch"@,
        EnvelopeFault::Signal => "unknown telemetry signal"@,
        EnvelopeFault::TooLarge => ""@,
        EnvelopeFault::Sections => "envelope sections do not match its length"@,
        EnvelopeFault::TenantText => "tenant is not UTF-8"@,
        EnvelopeFault::EmptyTenant => "tenant must not be empty"@,
        EnvelopeFault::NoItems => "item count must not be zero"@,
        EnvelopeFault::EmptyPayload => "payload must not be empty"@,
    };
    match error {
        TelemetryError::TelemetryEnvelopeTooLarge => fault is TooLarge,
        TelemetryError::InvalidTelemetryEnvelope(message) => !(fault is TooLarge) && message@
            == text,
        _ => false,
    }
}

impl EnvelopeContent {
    /// Why this content may not travel, if it may not.
    pub open spec fn fault(self) -> Option<EnvelopeFault> {
        if self.tenant.len() == 0 {
            Some(EnvelopeFault::EmptyTenant)
        } else if self.item_count == 0 {
            Some(EnvelopeFault::NoItems)
        } else if self.payload.len() == 0 {
            Some(EnvelopeFault::EmptyPayload)
        } else {
            None
        }
    }

    /// Bytes of the whole envelope.
    pub open spec fn total_len(self) -> nat {
        64 + encode_utf8(self.tenant).len() + self.routing_metadata.len() + self.payload.len()
    }

    /// The header up to its checksum.
    pub open spec fn prefix(self) -> Seq<u8> {
        envelope_magic() + seq![1u8, self.signal.tag(), 0, 0] + spec_u32_to_le_bytes(
            self.item_count,
        ) + spec_u32_to_le_bytes(encode_utf8(self.tenant).len() as u32) + spec_u32_to_le_bytes(
            self.routing_metadata.len() as u32,
        ) + spec_u64_to_le_bytes(self.payload.len() as u64) + seq![0u8, 0, 0, 0]
    }

    /// Tenant, routing metadata and payload, one after the other.
    pub open spec fn sections(self) -> Seq<u8> {
        encode_utf8(self.tenant) + self.routing_metadata + self.payload
    }

    /// The envelope bytes: header, digest of everything with a zeroed digest
    /// field, sections.
    pub open spec fn wire(self) -> Seq<u8> {
        self.prefix() + blake3_digest(self.prefix() + zero_digest() + self.sections())
            + self.sections()
    }
}

/// The digest field while the digest is computed.
pub open spec fn zero_digest() -> Seq<u8> {
    Seq::new(32, |i: int| 0u8)
}

/// `bytes` with a zeroed digest field.
pub open spec fn without_digest(bytes: Seq<u8>) -> Seq<u8> {
    bytes.take(32) + zero_digest() + bytes.skip(64)
}

/// The content of an encoded envelope, or the first fault that a reader meets.
pub open spec fn envelope_content(bytes: Seq<u8>) -> Result<EnvelopeContent, EnvelopeFault> {
    let tenant_len = spec_u32_from_le_bytes(bytes.subrange(12, 16)) as int;
    let routing_len = spec_u32_from_le_bytes(bytes.subrange(16, 20)) as int;
    let payload_len = spec_u64_from_le_bytes(bytes.subrange(20, 28)) as int;
    let total = 64 + tenant_len + routing_len + payload_len;
    if bytes.len() < 64 || bytes.len() > 67_108_864 {
        Err(EnvelopeFault::Length)
    } else if bytes.take(4) != envelope_magic() {
        Err(EnvelopeFault::Magic)
    } else if bytes[4] != 1 {
        Err(EnvelopeFault::Version)
    } else if bytes[6] != 0 || bytes[7] != 0 || bytes[28] != 0 || bytes[29] != 0 || bytes[30] != 0
        || bytes[31] != 0 {
        Err(EnvelopeFault::Reserved)
    } else if bytes.subrange(32, 64) != blake3_digest(without_digest(bytes)) {
        Err(EnvelopeFault::Checksum)
    } else if TelemetrySignal::tagged(bytes[5]) is None {
        Err(EnvelopeFault::Signal)
    } else if payload_len > usize::MAX || total > usize::MAX {
        Err(EnvelopeFault::TooLarge)
    } else if total != bytes.len() {
        Err(EnvelopeFault::Sections)
    } else if !valid_utf8(bytes.subrange(64, 64 + tenant_len)) {
        Err(EnvelopeFault::TenantText)
    } else {
        let content = EnvelopeContent {
            signal: TelemetrySignal::tagged(bytes[5])->0,
            tenant: decode_utf8(bytes.subrange(64, 64 + tenant_len)),
            item_count: spec_u32_from_le_bytes(bytes.subrange(8, 12)),
            routing_metadata: bytes.subrange(64 + tenant_len, 64 + tenant_len + routing_len),
            payload: bytes.subrange(64 + tenant_len + routing_len, bytes.len() as int),
        };
        match content.fault() {
            Some(fault) => Err(fault),
            None => Ok(content),
        }
    }
}

impl TelemetryEnvelope {
    /// What this envelope holds.
    pub open spec fn content(self) -> EnvelopeContent {
        EnvelopeContent {
            signal: self.signal,
            tenant: self.tenant@,
            item_count: self.item_count,
            routing_metadata: self.routing_metadata@,
            payload: self.payload@,
        }
    }

    /// Returns whether bytes begin with the current STEL envelope magic.
    pub fn is_encoded(encoded: &[u8]) -> (marked: bool)
        ensures
            marked == (encoded@.len() >= 4 && encoded@.take(4) == envelope_magic()),
    {
        let marked = encoded.len() >= 4 && encoded[0] == 0x53 && encoded[1] == 0x54 && encoded[2]
            == 0x45 && encoded[3] == 0x4c;
        proof {
            if encoded@.len() >= 4 {
                if marked {
                    assert(encoded@.take(4) =~= envelope_magic());
                } else {
                    assert(encoded@.take(4)[0] == encoded@[0]);
                    assert(encoded@.take(4)[1] == encoded@[1]);
                    assert(encoded@.take(4)[2] == encoded@[2]);
                    assert(encoded@.take(4)[3] == encoded@[3]);
                }
            }
        }
        marked
    }

    /// Creates an envelope after enforcing all durable size/count invariants.
    pub fn new(
        signal: TelemetrySignal,
        tenant: &str,
        item_count: u32,
        routing_metadata: Vec<u8>,
        payload: Vec<u8>,
    ) -> (result: TelemetryResult<Self>)
        ensures
            ({
                let content = EnvelopeContent {
                    signal,
                    tenant: tenant@,
                    item_count,
                    routing_metadata: routing_metadata@,
                    payload: payload@,
                };
                match result {
                    Ok(envelope) => content.fault() is None && envelope.content() == content,
                    Err(error) => content.fault() matches Some(fault) && reports(error, fault),
                }
            }),
    {
        let envelope = TelemetryEnvelope {
            signal,
            tenant: tenant.to_owned(),
            item_count,
            routing_metadata,
            payload,
        };
        match envelope.validate() {
            Ok(()) => Ok(envelope),
            Err(error) => Err(error),
        }
    }

    /// Encodes the `STEL` wire format.
    pub fn encode(&self) -> (result: TelemetryResult<Vec<u8>>)
        ensures
            match result {
                Ok(encoded) => {
                    &&& self.content().fault() is None
                    &&& self.content().total_len() <= 67_108_864
                    &&& encoded@ == self.content().wire()
                },
                Err(error) => match self.content().fault() {
                    Some(fault) => reports(error, fault),
                    None => self.content().total_len() > 67_108_864 && error
                        is TelemetryEnvelopeTooLarge,
                },
            },
    {
        if let Err(error) = self.validate() {
            return Err(error);
        }
        let tenant = self.tenant.as_str().as_bytes();
        if tenant.len() > MAX_TELEMETRY_ENVELOPE_BYTES || self.routing_metadata.len()
            > MAX_TELEMETRY_ENVELOPE_BYTES || self.payload.len() > MAX_TELEMETRY_ENVELOPE_BYTES {
            return Err(TelemetryError::TelemetryEnvelopeTooLarge);
        }
        let total: usize = ENVELOPE_HEADER_BYTES + tenant.len() + self.routing_metadata.len()
            + self.payload.len();
        if total > MAX_TELEMETRY_ENVELOPE_BYTES {
            return Err(TelemetryError::TelemetryEnvelopeTooLarge);
        }
        let mut prefix: Vec<u8> = Vec::new();
        prefix.push(0x53);
        prefix.push(0x54);
        prefix.push(0x45);
        prefix.push(0x4c);
        prefix.push(1);
        prefix.push(self.signal.to_wire());
        prefix.push(0);
        prefix.push(0);
        push_u32(&mut prefix, self.item_count);
        push_u32(&mut prefix, tenant.len() as u32);
        push_u32(&mut prefix, self.routing_metadata.len() as u32);
        push_u64(&mut prefix, self.payload.len() as u64);
        prefix.push(0);
        prefix.push(0);
        prefix.push(0);
        prefix.push(0);
        proof {
            vstd::bytes::lemma_auto_spec_u32_to_from_le_bytes();
            vstd::bytes::lemma_auto_spec_u64_to_from_le_bytes();
            assert(prefix@ =~= self.content().prefix());
        }
        let mut unsealed: Vec<u8> = Vec::new();
        push_bytes(&mut unsealed, &prefix);
        let mut zeros: usize = 0;
        while zeros < 32
            invariant
                zeros <= 32,
                unsealed@ == prefix@ + zero_digest().take(zeros as int),
            decreases 32 - zeros,
        {
            unsealed.push(0);
            zeros = zeros + 1;
            assert(unsealed@ =~= prefix@ + zero_digest().take(zeros as int));
        }
        assert(zero_digest().take(32) =~= zero_digest());
        push_bytes(&mut unsealed, tenant);
        push_bytes(&mut unsealed, &self.routing_metadata);
        push_bytes(&mut unsealed, &self.payload);
        assert(unsealed@ =~= prefix@ + zero_digest() + self.content().sections());
        let digest = blake3_hash(&unsealed);
        let mut encoded: Vec<u8> = prefix;
        push_bytes(&mut encoded, &digest);
        push_bytes(&mut encoded, tenant);
        push_bytes(&mut encoded, &self.routing_metadata);
        push_bytes(&mut encoded, &self.payload);
        assert(encoded@ =~= self.content().wire());
        Ok(encoded)
    }

    /// Decodes and verifies an `STEL` envelope before exposing any payload bytes.
    pub fn decode(encoded: &[u8]) -> (result: TelemetryResult<Self>)
        ensures
            match (result, envelope_content(encoded@)) {
                (Ok(envelope), Ok(content)) => envelope.content() == content,
                (Err(error), Err(fault)) => reports(error, fault),
                _ => false,
            },
    {
        if encoded.len() < ENVELOPE_HEADER_BYTES || encoded.len() > MAX_TELEMETRY_ENVELOPE_BYTES {
            return Err(
                TelemetryError::InvalidTelemetryEnvelope(
                    "envelope length is outside the supported range",
                ),
            );
        }
        if !Self::is_encoded(encoded) {
            return Err(TelemetryError::InvalidTelemetryEnvelope("missing STEL envelope magic"));
        }
        if encoded[4] != 1 {
            return Err(
                TelemetryError::InvalidTelemetryEnvelope("unsupported STEL envelope version"),
            );
        }
        if encoded[6] != 0 || encoded[7] != 0 || encoded[28] != 0 || encoded[29] != 0
            || encoded[30] != 0 || encoded[31] != 0 {
            return Err(TelemetryError::InvalidTelemetryEnvelope("nonzero reserved envelope bits"));
        }
        let observed = checksum(encoded);
        if !same_bytes(&observed, vstd::slice::slice_subrange(encoded, 32, 64)) {
            return Err(TelemetryError::InvalidTelemetryEnvelope("envelope checksum mismatch"));
        }
        let signal = match TelemetrySignal::from_wire(encoded[5]) {
            Some(signal) => signal,
            None => {
                return Err(TelemetryError::InvalidTelemetryEnvelope("unknown telemetry signal"));
            },
        };
        let item_count = read_u32(encoded, 8);
        let tenant_len = read_u32(encoded, 12) as u128;
        let routing_len = read_u32(encoded, 16) as u128;
        let payload_len = read_u64(encoded, 20) as u128;
        let total: u128 = 64 + tenant_len + routing_len + payload_len;
        if payload_len > usize::MAX as u128 || total > usize::MAX as u128 {
            return Err(TelemetryError::TelemetryEnvelopeTooLarge);
        }
        if total != encoded.len() as u128 {
            return Err(
                TelemetryError::InvalidTelemetryEnvelope(
                    "envelope sections do not match its length",
                ),
            );
        }
        let routing_start: usize = 64 + tenant_len as usize;
        let payload_start: usize = routing_start + routing_len as usize;
        let tenant = match decode_text(
            vstd::slice::slice_subrange(encoded, ENVELOPE_HEADER_BYTES, routing_start),
        ) {
            Some(tenant) => tenant,
            None => {
                return Err(TelemetryError::InvalidTelemetryEnvelope("tenant is not UTF-8"));
            },
        };
        let routing_metadata = vstd::slice::slice_to_vec(
            vstd::slice::slice_subrange(encoded, routing_start, payload_start),
        );
        let payload = vstd::slice::slice_to_vec(
            vstd::slice::slice_subrange(encoded, payload_start, encoded.len()),
        );
        Self::new(signal, tenant.as_str(), item_count, routing_metadata, payload)
    }

    fn validate(&self) -> (result: TelemetryResult<()>)
        ensures
            match result {
                Ok(()) => self.content().fault() is None,
                Err(error) => self.content().fault() matches Some(fault) && reports(error, fault),
            },
    {
        if self.tenant.as_str().is_empty() {
            return Err(TelemetryError::InvalidTelemetryEnvelope("tenant must not be empty"));
        }
        if self.item_count == 0 {
            return Err(TelemetryError::InvalidTelemetryEnvelope("item count must not be zero"));
        }
        if self.payload.len() == 0 {
            return Err(TelemetryError::InvalidTelemetryEnvelope("payload must not be empty"));
        }
        Ok(())
    }
}

/// Digest of an encoded envelope with its digest field taken as zeros.
fn checksum(encoded: &[u8]) -> (digest: [u8; 32])
    requires
        encoded@.len() >= 64,
    ensures
        digest@ == blake3_digest(without_digest(encoded@)),
{
    let mut bytes = vstd::slice::slice_to_vec(encoded);
    let mut index: usize = 32;
    while index < 64
        invariant
            32 <= index <= 64,
            bytes@.len() == encoded@.len(),
            bytes@.len() >= 64,
            forall|i: int|
                0 <= i < bytes@.len() ==> #[trigger] bytes@[i] == (if 32 <= i < index {
                    0u8
                } else {
                    encoded@[i]
                }),
        decreases 64 - index,
    {
        bytes.set(index, 0);
        index = index + 1;
    }
    assert(bytes@ =~= without_digest(encoded@));
    blake3_hash(&bytes)
}

/// Decoding what was encoded gives back the same content.
pub proof fn envelope_reads_back(content: EnvelopeContent)
    requires
        content.fault() is None,
        content.total_len() <= 67_108_864,
    ensures
        envelope_content(content.wire()) == Ok::<EnvelopeContent, EnvelopeFault>(content),
{
    let bytes = content.wire();
    let tenant = encode_utf8(content.tenant);
    let digest = blake3_digest(content.prefix() + zero_digest() + content.sections());
    vstd::bytes::lemma_auto_spec_u32_to_from_le_bytes();
    vstd::bytes::lemma_auto_spec_u64_to_from_le_bytes();
    vstd::utf8::encode_utf8_decode_utf8(content.tenant);
    vstd::utf8::encode_utf8_valid_utf8(content.tenant);
    signal_tags_read_back(content.signal);
    assert(bytes.len() == content.total_len());
    assert(bytes.take(4) =~= envelope_magic());
    assert(bytes.subrange(8, 12) =~= spec_u32_to_le_bytes(content.item_count));
    assert(bytes.subrange(12, 16) =~= spec_u32_to_le_bytes(tenant.len() as u32));
    assert(bytes.subrange(16, 20) =~= spec_u32_to_le_bytes(
        content.routing_metadata.len() as u32,
    ));
    assert(bytes.subrange(20, 28) =~= spec_u64_to_le_bytes(content.payload.len() as u64));
    assert(bytes.subrange(32, 64) =~= digest);
    assert(without_digest(bytes) =~= content.prefix() + zero_digest() + content.sections());
    let routing_start = 64 + tenant.len() as int;
    let payload_start = routing_start + content.routing_metadata.len() as int;
    assert(bytes.subrange(64, routing_start) =~= tenant);
    assert(bytes.subrange(routing_start, payload_start) =~= content.routing_metadata);
    assert(bytes.subrange(payload_start, bytes.len() as int) =~= content.payload);
}

/// Encoding what was decoded gives back the same bytes: no two encodings decode
/// alike.
pub proof fn envelope_encoding_is_canonical(bytes: Seq<u8>)
    requires
        envelope_content(bytes) is Ok,
    ensures
        envelope_content(bytes)->Ok_0.wire() == bytes,
        envelope_content(bytes)->Ok_0.fault() is None,
        envelope_content(bytes)->Ok_0.total_len() == bytes.len(),
{
    let content = envelope_content(bytes)->Ok_0;
    let tenant_len = spec_u32_from_le_bytes(bytes.subrange(12, 16)) as int;
    let routing_len = spec_u32_from_le_bytes(bytes.subrange(16, 20)) as int;
    vstd::bytes::lemma_auto_spec_u32_to_from_le_bytes();
    vstd::bytes::lemma_auto_spec_u64_to_from_le_bytes();
    vstd::utf8::decode_utf8_encode_utf8(bytes.subrange(64, 64 + tenant_len));
    signal_tags_read_back(content.signal);
    assert(content.sections() =~= bytes.skip(64));
    assert(bytes.take(4) == envelope_magic());
    assert(content.prefix() =~= bytes.take(32)) by {
        assert(bytes.take(32) =~= bytes.take(4) + bytes.subrange(4, 8) + bytes.subrange(8, 12)
            + bytes.subrange(12, 16) + bytes.subrange(16, 20) + bytes.subrange(20, 28)
            + bytes.subrange(28, 32));
        assert(bytes.subrange(4, 8) =~= seq![1u8, content.signal.tag(), 0, 0]);
        assert(bytes.subrange(28, 32) =~= seq![0u8, 0, 0, 0]);
    }
    assert(without_digest(bytes) =~= content.prefix() + zero_digest() + content.sections());
    assert(content.wire() =~= bytes);
}

} // verus!
