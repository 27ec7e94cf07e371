//! Lines of the Docker JSON log driver.

use std::rc::Rc;

use vstd::bytes::spec_u64_from_le_bytes;
use vstd::prelude::*;
use vstd::utf8::{decode_utf8, encode_scalar, encode_utf8, valid_utf8};

use crate::docker_time::{
    ascii_timestamp, parse_ascii_docker_timestamp_cached, DockerTimestampPrefixCache,
};
use crate::text::{decode_text, hex_nibble, nibble, same_bytes};
use crate::wire::read_u64;

verus! {

/// Slots of the message cache.
pub const DOCKER_MESSAGE_CACHE_ENTRIES: usize = 256;

/// What stands before the message of a line.
pub open spec fn line_prefix() -> Seq<u8> {
    encode_utf8("{\"log\":\""@)
}

/// What stands between the message and the timestamp of a line.
pub open spec fn stderr_suffix() -> Seq<u8> {
    encode_utf8("\",\"stream\":\"stderr\",\"time\":\""@)
}

/// What stands between the message and the timestamp of a line.
pub open spec fn stdout_suffix() -> Seq<u8> {
    encode_utf8("\",\"stream\":\"stdout\",\"time\":\""@)
}

/// Whether bytes start with others.
pub open spec fn begins(bytes: Seq<u8>, prefix: Seq<u8>) -> bool {
    bytes.len() >= prefix.len() && bytes.take(prefix.len() as int) == prefix
}

/// Whether bytes end with others.
pub open spec fn finishes(bytes: Seq<u8>, suffix: Seq<u8>) -> bool {
    bytes.len() >= suffix.len() && bytes.skip(bytes.len() - suffix.len()) == suffix
}

/// Whether bytes start with others.
pub fn starts_with(bytes: &[u8], prefix: &[u8]) -> (starts: bool)
    ensures
        starts == begins(bytes@, prefix@),
{
    assert(bytes.len() == bytes@.len());
    assert(prefix.len() == prefix@.len());
    if bytes.len() < prefix.len() {
        return false;
    }
    let head = vstd::slice::slice_subrange(bytes, 0, prefix.len());
    assert(head@ =~= bytes@.take(prefix@.len() as int));
    same_bytes(head, prefix)
}

/// Whether bytes end with others.
pub fn ends_with(bytes: &[u8], suffix: &[u8]) -> (ends: bool)
    ensures
        ends == finishes(bytes@, suffix@),
{
    assert(bytes.len() == bytes@.len());
    assert(suffix.len() == suffix@.len());
    if bytes.len() < suffix.len() {
        return false;
    }
    let tail = vstd::slice::slice_subrange(bytes, bytes.len() - suffix.len(), bytes.len());
    assert(tail@ =~= bytes@.skip(bytes@.len() - suffix@.len()));
    same_bytes(tail, suffix)
}

/// The value of four hexadecimal digits.
pub open spec fn hex_quad(raw: Seq<u8>) -> Option<u32> {
    if raw.len() < 4 {
        None
    } else {
        match (nibble(raw[0]), nibble(raw[1]), nibble(raw[2]), nibble(raw[3])) {
            (Some(a), Some(b), Some(c), Some(d)) => Some(
                (a * 4096 + b * 256 + c * 16 + d) as u32,
            ),
            _ => None,
        }
    }
}

/// The scalar of a `u` escape that starts after its backslash, and the number
/// of bytes that it takes from there.
pub open spec fn unicode_escape(raw: Seq<u8>) -> Option<(u32, int)> {
    match hex_quad(raw.skip(1)) {
        None => None,
        Some(first) => if 0xd800 <= first <= 0xdbff {
            if raw.len() < 7 || raw[5] != 0x5c || raw[6] != 0x75 {
                None
            } else {
                match hex_quad(raw.skip(7)) {
                    None => None,
                    Some(second) => if 0xdc00 <= second <= 0xdfff {
                        Some(
                            (
                                (0x1_0000 + (first - 0xd800) * 1024 + (second - 0xdc00)) as u32,
                                11,
                            ),
                        )
                    } else {
                        None
                    },
                }
            }
        } else if 0xdc00 <= first <= 0xdfff {
            None
        } else {
            Some((first, 5))
        },
    }
}

/// The byte that a simple escape stands for.
pub open spec fn simple_escape(byte: u8) -> Option<u8> {
    if byte == 0x22 || byte == 0x5c || byte == 0x2f {
        Some(byte)
    } else if byte == 0x62 {
        Some(0x08)
    } else if byte == 0x66 {
        Some(0x0c)
    } else if byte == 0x6e {
        Some(0x0a)
    } else if byte == 0x72 {
        Some(0x0d)
    } else if byte == 0x74 {
        Some(0x09)
    } else {
        None
    }
}

/// The bytes that an escaped JSON string holds.
pub open spec fn unescaped(raw: Seq<u8>) -> Option<Seq<u8>>
    decreases raw.len(),
{
    if raw.len() == 0 {
        Some(Seq::empty())
    } else if raw[0] == 0x5c {
        if raw.len() < 2 {
            None
        } else if raw[1] == 0x75 {
            match unicode_escape(raw.skip(1)) {
                None => None,
                Some((scalar, taken)) => match unescaped(raw.skip(1 + taken)) {
                    None => None,
                    Some(rest) => Some(encode_scalar(scalar) + rest),
                },
            }
        } else {
            match (simple_escape(raw[1]), unescaped(raw.skip(2))) {
                (Some(byte), Some(rest)) => Some(seq![byte] + rest),
                _ => None,
            }
        }
    } else if raw[0] == 0x22 || raw[0] < 0x20 {
        None
    } else {
        match unescaped(raw.skip(1)) {
            None => None,
            Some(rest) => Some(seq![raw[0]] + rest),
        }
    }
}

/// The text of bytes, where they are text.
pub open spec fn text_of(bytes: Seq<u8>) -> Option<Seq<char>> {
    if valid_utf8(bytes) {
        Some(decode_utf8(bytes))
    } else {
        None
    }
}

/// The message that stands between the quotes of a line.
pub open spec fn message_of(raw: Seq<u8>) -> Option<Seq<char>> {
    if !raw.contains(0x5c) {
        text_of(raw)
    } else {
        match unescaped(raw) {
            Some(bytes) => text_of(bytes),
            None => None,
        }
    }
}

/// Reads four hexadecimal digits.
fn parse_json_hex_quad(raw: &[u8], start: usize) -> (value: Option<u32>)
    requires
        start <= raw@.len(),
    ensures
        value == hex_quad(raw@.skip(start as int)),
        value matches Some(value) ==> value <= 0xffff,
{
    assert(raw.len() == raw@.len());
    if raw.len() - start < 4 {
        return None;
    }
    match (
        hex_nibble(raw[start]),
        hex_nibble(raw[start + 1]),
        hex_nibble(raw[start + 2]),
        hex_nibble(raw[start + 3]),
    ) {
        (Some(a), Some(b), Some(c), Some(d)) => Some(
            a as u32 * 4096 + b as u32 * 256 + c as u32 * 16 + d as u32,
        ),
        _ => None,
    }
}

/// Reads a `u` escape whose marker stands at `marker`.
fn decode_json_unicode_escape(raw: &[u8], marker: usize) -> (decoded: Option<(u32, usize)>)
    requires
        marker < raw@.len(),
    ensures
        match decoded {
            Some((scalar, next)) => unicode_escape(raw@.skip(marker as int)) == Some(
                (scalar, next - marker),
            ) && marker < next <= raw@.len(),
            None => unicode_escape(raw@.skip(marker as int)) is None,
        },
{
    assert(raw.len() == raw@.len());
    let ghost escape = raw@.skip(marker as int);
    assert(escape.skip(1) =~= raw@.skip(marker + 1));
    let first = match parse_json_hex_quad(raw, marker + 1) {
        Some(first) => first,
        None => {
            return None;
        },
    };
    if first >= 0xd800 && first <= 0xdbff {
        if raw.len() - marker < 7 || raw[marker + 5] != 0x5c || raw[marker + 6] != 0x75 {
            return None;
        }
        assert(escape.skip(7) =~= raw@.skip(marker + 7));
        let second = match parse_json_hex_quad(raw, marker + 7) {
            Some(second) => second,
            None => {
                return None;
            },
        };
        if second < 0xdc00 || second > 0xdfff {
            return None;
        }
        return Some((0x1_0000 + (first - 0xd800) * 1024 + (second - 0xdc00), marker + 11));
    }
    if first >= 0xdc00 && first <= 0xdfff {
        return None;
    }
    Some((first, marker + 5))
}

/// Appends the UTF-8 bytes of a scalar.
fn push_scalar(output: &mut Vec<u8>, scalar: u32)
    requires
        vstd::utf8::is_scalar(scalar),
    ensures
        final(output)@ == old(output)@ + encode_scalar(scalar),
{
    if scalar <= 0x7f {
        output.push((scalar & 0x7f) as u8);
    } else if scalar <= 0x7ff {
        output.push(0xc0 | ((scalar >> 6) & 0x1f) as u8);
        output.push(0x80 | (scalar & 0x3f) as u8);
    } else if scalar <= 0xffff {
        output.push(0xe0 | ((scalar >> 12) & 0x0f) as u8);
        output.push(0x80 | ((scalar >> 6) & 0x3f) as u8);
        output.push(0x80 | (scalar & 0x3f) as u8);
    } else {
        output.push(0xf0 | ((scalar >> 18) & 0x7) as u8);
        output.push(0x80 | ((scalar >> 12) & 0x3f) as u8);
        output.push(0x80 | ((scalar >> 6) & 0x3f) as u8);
        output.push(0x80 | (scalar & 0x3f) as u8);
    }
    assert(output@ =~= old(output)@ + encode_scalar(scalar));
}

/// Every `u` escape that is accepted stands for a Unicode scalar.
pub proof fn unicode_escapes_are_scalars(raw: Seq<u8>)
    ensures
        unicode_escape(raw) matches Some((scalar, _)) ==> vstd::utf8::is_scalar(scalar),
{
}

/// Whether bytes hold a backslash.
fn has_escape(raw: &[u8]) -> (found: bool)
    ensures
        found == raw@.contains(0x5c),
{
    assert(raw.len() == raw@.len());
    let mut next: usize = 0;
    while next < raw.len()
        invariant
            next <= raw@.len(),
            raw.len() == raw@.len(),
            forall|i: int| 0 <= i < next ==> raw@[i] != 0x5c,
        decreases raw@.len() - next,
    {
        if raw[next] == 0x5c {
            assert(raw@[next as int] == 0x5c);
            return true;
        }
        next = next + 1;
    }
    false
}

/// How the first piece of what is left of a string relates to what follows it.
spec fn steps(raw: Seq<u8>, cursor: int, piece: Seq<u8>, next: int) -> bool {
    match unescaped(raw.skip(next)) {
        Some(rest) => unescaped(raw.skip(cursor)) == Some(piece + rest),
        None => unescaped(raw.skip(cursor)) is None,
    }
}

/// Reads a plain byte or a simple escape.
fn take_byte(raw: &[u8], cursor: usize) -> (taken: Option<(u8, usize)>)
    requires
        cursor < raw@.len(),
        !(raw@[cursor as int] == 0x5c && cursor + 1 < raw@.len() && raw@[cursor + 1] == 0x75),
    ensures
        match taken {
            Some((byte, next)) => cursor < next <= raw@.len() && steps(
                raw@,
                cursor as int,
                seq![byte],
                next as int,
            ),
            None => unescaped(raw@.skip(cursor as int)) is None,
        },
{
    assert(raw.len() == raw@.len());
    let ghost left = raw@.skip(cursor as int);
    let byte = raw[cursor];
    assert(left[0] == byte);
    if byte == 0x5c {
        if raw.len() - cursor < 2 {
            return None;
        }
        let escaped = raw[cursor + 1];
        assert(left[1] == escaped);
        let plain: u8 = match escaped {
            0x22 | 0x5c | 0x2f => escaped,
            0x62 => 0x08,
            0x66 => 0x0c,
            0x6e => 0x0a,
            0x72 => 0x0d,
            0x74 => 0x09,
            _ => {
                return None;
            },
        };
        assert(left.skip(2) =~= raw@.skip(cursor + 2));
        Some((plain, cursor + 2))
    } else if byte == 0x22 || byte < 0x20 {
        None
    } else {
        assert(left.skip(1) =~= raw@.skip(cursor + 1));
        Some((byte, cursor + 1))
    }
}

/// Reads a `u` escape.
fn take_scalar(raw: &[u8], cursor: usize) -> (taken: Option<(u32, usize)>)
    requires
        cursor + 1 < raw@.len(),
        raw@[cursor as int] == 0x5c,
        raw@[cursor + 1] == 0x75,
    ensures
        match taken {
            Some((scalar, next)) => cursor < next <= raw@.len() && vstd::utf8::is_scalar(scalar)
                && steps(raw@, cursor as int, encode_scalar(scalar), next as int),
            None => unescaped(raw@.skip(cursor as int)) is None,
        },
{
    assert(raw.len() == raw@.len());
    let ghost left = raw@.skip(cursor as int);
    assert(left[0] == 0x5c);
    assert(left[1] == 0x75);
    assert(left.skip(1) =~= raw@.skip(cursor + 1));
    match decode_json_unicode_escape(raw, cursor + 1) {
        Some((scalar, next)) => {
            proof {
                unicode_escapes_are_scalars(raw@.skip(cursor + 1));
                assert(left.skip(1 + (next - (cursor + 1))) =~= raw@.skip(next as int));
            }
            Some((scalar, next))
        },
        None => None,
    }
}

/// How what is left of a string relates to the whole of it.
spec fn resumes(raw: Seq<u8>, decoded: Seq<u8>, cursor: int) -> bool {
    match unescaped(raw.skip(cursor)) {
        Some(rest) => unescaped(raw) == Some(decoded + rest),
        None => unescaped(raw) is None,
    }
}

proof fn lemma_resumes(raw: Seq<u8>, decoded: Seq<u8>, cursor: int, piece: Seq<u8>, next: int)
    requires
        resumes(raw, decoded, cursor),
        steps(raw, cursor, piece, next),
    ensures
        resumes(raw, decoded + piece, next),
{
    if let Some(rest) = unescaped(raw.skip(next)) {
        assert(decoded + (piece + rest) =~= (decoded + piece) + rest);
    }
}

/// The bytes that an escaped JSON string holds.
fn unescape(raw: &[u8]) -> (decoded: Option<Vec<u8>>)
    ensures
        match decoded {
            Some(decoded) => unescaped(raw@) == Some(decoded@),
            None => unescaped(raw@) is None,
        },
{
    assert(raw.len() == raw@.len());
    let mut decoded: Vec<u8> = Vec::new();
    let mut cursor: usize = 0;
    assert(raw@.skip(0) =~= raw@);
    proof {
        if unescaped(raw@) is Some {
            assert(decoded@ + unescaped(raw@)->0 =~= unescaped(raw@)->0);
        }
    }
    while cursor < raw.len()
        invariant
            cursor <= raw@.len(),
            raw.len() == raw@.len(),
            resumes(raw@, decoded@, cursor as int),
        decreases raw@.len() - cursor,
    {
        let ghost before = decoded@;
        if raw[cursor] == 0x5c && raw.len() - cursor > 1 && raw[cursor + 1] == 0x75 {
            match take_scalar(raw, cursor) {
                Some((scalar, next)) => {
                    push_scalar(&mut decoded, scalar);
                    proof {
                        lemma_resumes(
                            raw@,
                            before,
                            cursor as int,
                            encode_scalar(scalar),
                            next as int,
                        );
                    }
                    cursor = next;
                },
                None => {
                    return None;
                },
            }
        } else {
            match take_byte(raw, cursor) {
                Some((byte, next)) => {
                    decoded.push(byte);
                    proof {
                        lemma_resumes(raw@, before, cursor as int, seq![byte], next as int);
                        assert(decoded@ =~= before + seq![byte]);
                    }
                    cursor = next;
                },
                None => {
                    return None;
                },
            }
        }
    }
    assert(raw@.skip(cursor as int) =~= Seq::<u8>::empty());
    assert(decoded@ + Seq::<u8>::empty() =~= decoded@);
    Some(decoded)
}

/// The message that stands between the quotes of a line.
pub fn decode_common_json_message(raw: &[u8]) -> (message: Option<String>)
    ensures
        match message {
            Some(message) => message_of(raw@) == Some(message@),
            None => message_of(raw@) is None,
        },
{
    if !has_escape(raw) {
        return decode_text(raw);
    }
    match unescape(raw) {
        Some(decoded) => decode_text(decoded.as_slice()),
        None => None,
    }
}

/// Calls `Rc::clone`: another handle to the same immutable value.
#[verifier::external_body]
fn share_message(message: &Rc<String>) -> (copy: Rc<String>)
    ensures
        copy == *message,
{
    Rc::clone(message)
}

/// A message that was decoded before.
pub struct DockerMessageCacheEntry<'a> {
    raw: &'a [u8],
    decoded: Rc<String>,
}

/// Messages that were decoded before, by a hash of their bytes.
pub struct DockerMessageCache<'a> {
    entries: Vec<Option<DockerMessageCacheEntry<'a>>>,
}

impl<'a> DockerMessageCache<'a> {
    /// Whether every slot holds a message with its own text.
    pub closed spec fn faithful(&self) -> bool {
        &&& self.entries@.len() == DOCKER_MESSAGE_CACHE_ENTRIES
        &&& forall|i: int|
            0 <= i < self.entries@.len() ==> match #[trigger] self.entries@[i] {
                Some(entry) => message_of(entry.raw@) == Some(entry.decoded@),
                None => true,
            }
    }

    /// An empty cache.
    pub fn new() -> (cache: Self)
        ensures
            cache.faithful(),
    {
        let mut entries: Vec<Option<DockerMessageCacheEntry<'a>>> = Vec::new();
        let mut made: usize = 0;
        while made < DOCKER_MESSAGE_CACHE_ENTRIES
            invariant
                made <= DOCKER_MESSAGE_CACHE_ENTRIES,
                entries@.len() == made,
                forall|i: int| 0 <= i < made ==> (#[trigger] entries@[i]) is None,
            decreases DOCKER_MESSAGE_CACHE_ENTRIES - made,
        {
            entries.push(None);
            made = made + 1;
        }
        Self { entries }
    }

    /// The message of these bytes, decoded once while it stays in its slot.
    pub fn decode(&mut self, raw: &'a [u8]) -> (message: Option<Rc<String>>)
        requires
            old(self).faithful(),
        ensures
            final(self).faithful(),
            match message {
                Some(message) => message_of(raw@) == Some(message@),
                None => message_of(raw@) is None,
            },
    {
        let slot = docker_message_cache_slot(raw);
        if let Some(entry) = &self.entries[slot] {
            if same_bytes(entry.raw, raw) {
                return Some(share_message(&entry.decoded));
            }
        }
        match decode_common_json_message(raw) {
            Some(message) => {
                let decoded = Rc::new(message);
                let copy = share_message(&decoded);
                self.entries.set(slot, Some(DockerMessageCacheEntry { raw, decoded }));
                Some(copy)
            },
            None => None,
        }
    }
}

/// Eight bytes of a message as a number, with zeros past its end.
pub open spec fn message_sample(message: Seq<u8>, start: int) -> u64 {
    spec_u64_from_le_bytes(
        Seq::new(
            8,
            |i: int|
                if start + i < message.len() {
                    message[start + i]
                } else {
                    0u8
                },
        ),
    )
}

/// A number with its high bits folded into the low ones.
pub open spec fn fold_high_bits(hash: u64) -> u64 {
    hash ^ (hash >> 33)
}

/// A hash of the length of a message and of its first, middle and last eight
/// bytes.
pub open spec fn message_hash(message: Seq<u8>) -> u64 {
    let tail: int = if message.len() < 8 {
        0
    } else {
        message.len() - 8
    };
    let scaled = (message.len() as u64).wrapping_mul(0x9e37_79b1_85eb_ca87);
    let sampled = ((scaled << 17) | (scaled >> 47)) ^ message_sample(message, 0).wrapping_mul(
        0xc2b2_ae3d_27d4_eb4f,
    ) ^ message_sample(message, tail / 2).wrapping_mul(0x1656_67b1_9e37_79f9) ^ message_sample(
        message,
        tail,
    ).wrapping_mul(0x85eb_ca77_c2b2_ae63);
    fold_high_bits(fold_high_bits(sampled).wrapping_mul(0xff51_afd7_ed55_8ccd))
}

/// The slot of these bytes: the low bits of their hash.
fn docker_message_cache_slot(message: &[u8]) -> (slot: usize)
    ensures
        slot < DOCKER_MESSAGE_CACHE_ENTRIES,
        slot == message_hash(message@) & 255,
{
    assert(message.len() == message@.len());
    let length = message.len();
    let tail: usize = if length < 8 {
        0
    } else {
        length - 8
    };
    let first = sampled_message_u64(message, 0);
    let middle = sampled_message_u64(message, tail / 2);
    let last = sampled_message_u64(message, tail);
    let scaled = (length as u64).wrapping_mul(0x9e37_79b1_85eb_ca87);
    let mut hash = (scaled << 17) | (scaled >> 47);
    hash = hash ^ first.wrapping_mul(0xc2b2_ae3d_27d4_eb4f);
    hash = hash ^ middle.wrapping_mul(0x1656_67b1_9e37_79f9);
    hash = hash ^ last.wrapping_mul(0x85eb_ca77_c2b2_ae63);
    hash = hash ^ (hash >> 33);
    hash = hash.wrapping_mul(0xff51_afd7_ed55_8ccd);
    hash = hash ^ (hash >> 33);
    assert(hash & 255 < 256) by (bit_vector);
    (hash & 255) as usize
}

/// Eight bytes of a message as a number, with zeros past its end.
fn sampled_message_u64(message: &[u8], start: usize) -> (sample: u64)
    requires
        start <= message@.len(),
    ensures
        sample == message_sample(message@, start as int),
{
    assert(message.len() == message@.len());
    let ghost window = Seq::new(
        8,
        |i: int|
            if start + i < message@.len() {
                message@[start + i]
            } else {
                0u8
            },
    );
    if message.len() - start >= 8 {
        assert(message@.subrange(start as int, start + 8) =~= window);
        return read_u64(message, start);
    }
    let mut bytes: Vec<u8> = Vec::new();
    let mut next: usize = start;
    while next < message.len()
        invariant
            start <= next <= message@.len(),
            message.len() == message@.len(),
            message@.len() - start < 8,
            bytes@ == message@.subrange(start as int, next as int),
        decreases message@.len() - next,
    {
        bytes.push(message[next]);
        next = next + 1;
        assert(bytes@ =~= message@.subrange(start as int, next as int));
    }
    while bytes.len() < 8
        invariant
            message@.len() - start <= bytes@.len() <= 8,
            forall|i: int|
                0 <= i < bytes@.len() ==> (#[trigger] bytes@[i]) == if start + i < message@.len() {
                    message@[start + i]
                } else {
                    0u8
                },
        decreases 8 - bytes@.len(),
    {
        bytes.push(0);
    }
    assert(bytes@.subrange(0, 8) =~= window);
    read_u64(bytes.as_slice(), 0)
}

/// The first place of a byte at or after a position.
pub open spec fn first_place(bytes: Seq<u8>, byte: u8, from: int) -> Option<int>
    decreases bytes.len() - from,
{
    if from >= bytes.len() || from < 0 {
        None
    } else if bytes[from] == byte {
        Some(from)
    } else {
        first_place(bytes, byte, from + 1)
    }
}

/// A line without its end.
pub open spec fn line_body(line: Seq<u8>) -> Seq<u8> {
    let unended = if line.len() > 0 && line.last() == 0x0a {
        line.drop_last()
    } else {
        line
    };
    if unended.len() > 0 && unended.last() == 0x0d {
        unended.drop_last()
    } else {
        unended
    }
}

/// Where the timestamp of a line starts.
pub open spec fn timestamp_start(body: Seq<u8>) -> Option<int> {
    let end = body.len() - 2;
    if end < 20 {
        None
    } else {
        match first_place(body.take(end - 9), 0x54, end - 20) {
            None => None,
            Some(place) => if place < 11 || body[place - 11] != 0x22 {
                None
            } else {
                Some(place - 10)
            },
        }
    }
}

/// What a line says.
pub struct DockerLine {
    /// Message text.
    pub message: Seq<char>,
    /// Stream name.
    pub stream: Seq<char>,
    /// Unix nanoseconds.
    pub timestamp: nat,
}

/// What a line in the usual form says.
pub open spec fn canonical_line(line: Seq<u8>) -> Option<DockerLine> {
    let body = line_body(line);
    if !begins(body, line_prefix()) || !finishes(body, encode_utf8("\"}"@)) {
        None
    } else {
        match timestamp_start(body) {
            None => None,
            Some(start) => match ascii_timestamp(body.subrange(start, body.len() - 2)) {
                None => None,
                Some(timestamp) => {
                    let before = body.take(start);
                    let (suffix, stream) = if finishes(before, stderr_suffix()) {
                        (Some(stderr_suffix()), "stderr"@)
                    } else if finishes(before, stdout_suffix()) {
                        (Some(stdout_suffix()), "stdout"@)
                    } else {
                        (None, Seq::empty())
                    };
                    match suffix {
                        None => None,
                        Some(suffix) => if line_prefix().len() + suffix.len() > start {
                            None
                        } else {
                            match message_of(
                                body.subrange(line_prefix().len() as int, start - suffix.len()),
                            ) {
                                None => None,
                                Some(message) => Some(DockerLine { message, stream, timestamp }),
                            }
                        },
                    }
                },
            },
        }
    }
}

/// Reads a line in the usual form.
pub fn parse_canonical_docker_json<'a>(
    line: &'a [u8],
    message_cache: &mut DockerMessageCache<'a>,
    timestamp_cache: &mut DockerTimestampPrefixCache,
) -> (parsed: Option<(Rc<String>, &'static str, u64)>)
    requires
        old(message_cache).faithful(),
        old(timestamp_cache).faithful(),
    ensures
        final(message_cache).faithful(),
        final(timestamp_cache).faithful(),
        match parsed {
            Some((message, stream, timestamp)) => canonical_line(line@) matches Some(read)
                && read.message == message@ && read.stream == stream@ && read.timestamp == timestamp,
            None => canonical_line(line@) is None,
        },
{
    assert(line.len() == line@.len());
    let mut end = line.len();
    if end > 0 && line[end - 1] == 0x0a {
        end = end - 1;
    }
    if end > 0 && line[end - 1] == 0x0d {
        end = end - 1;
    }
    let body = vstd::slice::slice_subrange(line, 0, end);
    assert(body@ =~= line_body(line@));
    assert(body.len() == body@.len());
    let prefix = "{\"log\":\"".as_bytes();
    let close = "\"}".as_bytes();
    if !starts_with(body, prefix) || !ends_with(body, close) {
        return None;
    }
    if body.len() < 22 {
        return None;
    }
    let timestamp_end = body.len() - 2;
    let latest = timestamp_end - 10;
    let mut place = timestamp_end - 20;
    let ghost window = body@.take(timestamp_end - 9);
    while place <= latest && body[place] != 0x54
        invariant
            body.len() == body@.len(),
            body@.len() >= 22,
            timestamp_end == body@.len() - 2,
            latest == timestamp_end - 10,
            timestamp_end - 20 <= place <= latest + 1,
            window == body@.take(timestamp_end - 9),
            first_place(window, 0x54, timestamp_end - 20) == first_place(window, 0x54, place as int),
        decreases latest + 1 - place,
    {
        assert(window[place as int] == body@[place as int]);
        place = place + 1;
    }
    if place > latest {
        return None;
    }
    assert(window[place as int] == body@[place as int]);
    if place < 11 || body[place - 11] != 0x22 {
        return None;
    }
    let start = place - 10;
    let timestamp_bytes = vstd::slice::slice_subrange(body, start, timestamp_end);
    let timestamp = match parse_ascii_docker_timestamp_cached(timestamp_bytes, timestamp_cache) {
        Some(timestamp) => timestamp,
        None => {
            return None;
        },
    };
    let before = vstd::slice::slice_subrange(body, 0, start);
    assert(before@ =~= body@.take(start as int));
    assert(before.len() == before@.len());
    let stderr = "\",\"stream\":\"stderr\",\"time\":\"".as_bytes();
    let stdout = "\",\"stream\":\"stdout\",\"time\":\"".as_bytes();
    let (suffix_length, stream) = if ends_with(before, stderr) {
        (stderr.len(), "stderr")
    } else if ends_with(before, stdout) {
        (stdout.len(), "stdout")
    } else {
        return None;
    };
    assert(prefix.len() == prefix@.len());
    assert(stderr.len() == stderr@.len());
    assert(stdout.len() == stdout@.len());
    if prefix.len() > start - suffix_length {
        return None;
    }
    let raw = vstd::slice::slice_subrange(body, prefix.len(), start - suffix_length);
    match message_cache.decode(raw) {
        Some(message) => Some((message, stream, timestamp)),
        None => None,
    }
}

} // verus!
