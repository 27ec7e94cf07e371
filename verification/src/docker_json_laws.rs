//! Messages of Docker JSON lines, written and read back.

use vstd::prelude::*;
use vstd::utf8::{
    char_is_scalar, encode_scalar, encode_utf8, encode_utf8_decode_utf8, encode_utf8_valid_utf8,
};

use crate::docker_json::{
    hex_quad, message_of, simple_escape, text_of, unescaped, unicode_escape,
};
use crate::text::nibble;

verus! {

/// A hexadecimal digit.
pub open spec fn hex_digit(value: int, upper: bool) -> u8 {
    if value < 10 {
        (0x30 + value) as u8
    } else if upper {
        (0x41 + value - 10) as u8
    } else {
        (0x61 + value - 10) as u8
    }
}

/// A 16-bit unit as backslash, `u` and four hexadecimal digits, the highest first.
pub open spec fn unit_escape(unit: int, upper: bool) -> Seq<u8> {
    seq![
        0x5cu8,
        0x75u8,
        hex_digit(unit / 4096, upper),
        hex_digit(unit / 256 % 16, upper),
        hex_digit(unit / 16 % 16, upper),
        hex_digit(unit % 16, upper),
    ]
}

/// A character by its UTF-16 units, each of them escaped.
pub open spec fn numbered(character: char, upper: bool) -> Seq<u8> {
    let scalar = character as u32 as int;
    if scalar < 0x1_0000 {
        unit_escape(scalar, upper)
    } else {
        unit_escape(0xd800 + (scalar - 0x1_0000) / 1024, upper) + unit_escape(
            0xdc00 + (scalar - 0x1_0000) % 1024,
            upper,
        )
    }
}

/// A character in a JSON string: a quote and a backslash behind a backslash, the
/// control characters by their short escape or by their number, everything else as
/// it is.
pub open spec fn escaped_character(character: char, upper: bool) -> Seq<u8> {
    if character == '"' {
        seq![0x5cu8, 0x22u8]
    } else if character == '\\' {
        seq![0x5cu8, 0x5cu8]
    } else if character as u32 == 8 {
        seq![0x5cu8, 0x62u8]
    } else if character as u32 == 12 {
        seq![0x5cu8, 0x66u8]
    } else if character as u32 == 10 {
        seq![0x5cu8, 0x6eu8]
    } else if character as u32 == 13 {
        seq![0x5cu8, 0x72u8]
    } else if character as u32 == 9 {
        seq![0x5cu8, 0x74u8]
    } else if (character as u32) < 32 {
        unit_escape(character as u32 as int, upper)
    } else {
        encode_scalar(character as u32)
    }
}

/// A text in a JSON string.
pub open spec fn escaped_text(text: Seq<char>, upper: bool) -> Seq<u8>
    decreases text.len(),
{
    if text.len() == 0 {
        Seq::empty()
    } else {
        escaped_character(text[0], upper) + escaped_text(text.drop_first(), upper)
    }
}

/// A text in a JSON string, every character by its number.
pub open spec fn numbered_text(text: Seq<char>, upper: bool) -> Seq<u8>
    decreases text.len(),
{
    if text.len() == 0 {
        Seq::empty()
    } else {
        numbered(text[0], upper) + numbered_text(text.drop_first(), upper)
    }
}

/// Whether bytes stand for themselves in a JSON string.
pub open spec fn plain(bytes: Seq<u8>) -> bool {
    forall|i: int|
        0 <= i < bytes.len() ==> (#[trigger] bytes[i]) >= 0x20 && bytes[i] != 0x22 && bytes[i]
            != 0x5c
}

/// Whether what stands before some bytes gives `piece` ahead of what they give.
spec fn gives(front: Seq<u8>, piece: Seq<u8>, rest: Seq<u8>) -> bool {
    unescaped(front + rest) == match unescaped(rest) {
        Some(decoded) => Some(piece + decoded),
        None => None,
    }
}

proof fn lemma_plain(bytes: Seq<u8>, rest: Seq<u8>)
    requires
        plain(bytes),
    ensures
        gives(bytes, bytes, rest),
    decreases bytes.len(),
{
    let all = bytes + rest;
    if bytes.len() == 0 {
        assert(all =~= rest);
        if let Some(decoded) = unescaped(rest) {
            assert(bytes + decoded =~= decoded);
        }
    } else {
        let later = bytes.drop_first();
        assert forall|i: int| 0 <= i < later.len() implies (#[trigger] later[i]) >= 0x20
            && later[i] != 0x22 && later[i] != 0x5c by {
            assert(later[i] == bytes[i + 1]);
        }
        lemma_plain(later, rest);
        assert(all.skip(1) =~= later + rest);
        assert(all[0] == bytes[0]);
        if let Some(decoded) = unescaped(rest) {
            assert(seq![bytes[0]] + (later + decoded) =~= bytes + decoded);
        }
    }
}

proof fn lemma_short_escape(code: u8, byte: u8, rest: Seq<u8>)
    requires
        simple_escape(code) == Some(byte),
    ensures
        gives(seq![0x5cu8, code], seq![byte], rest),
{
    let all = seq![0x5cu8, code] + rest;
    assert(all[0] == 0x5c && all[1] == code);
    assert(all.skip(2) =~= rest);
}

proof fn lemma_digit(value: int, upper: bool)
    requires
        0 <= value < 16,
    ensures
        nibble(hex_digit(value, upper)) == Some(value as u8),
{
}

proof fn lemma_quad(unit: int, upper: bool, rest: Seq<u8>)
    requires
        0 <= unit < 0x1_0000,
    ensures
        hex_quad((unit_escape(unit, upper) + rest).skip(2)) == Some(unit as u32),
{
    let digits = (unit_escape(unit, upper) + rest).skip(2);
    lemma_digit(unit / 4096, upper);
    lemma_digit(unit / 256 % 16, upper);
    lemma_digit(unit / 16 % 16, upper);
    lemma_digit(unit % 16, upper);
    assert(digits[0] == hex_digit(unit / 4096, upper));
    assert(digits[1] == hex_digit(unit / 256 % 16, upper));
    assert(digits[2] == hex_digit(unit / 16 % 16, upper));
    assert(digits[3] == hex_digit(unit % 16, upper));
    assert((unit / 4096) * 4096 + (unit / 256 % 16) * 256 + (unit / 16 % 16) * 16 + unit % 16
        == unit);
}

proof fn lemma_unit(unit: int, upper: bool, rest: Seq<u8>)
    requires
        0 <= unit < 0x1_0000,
        !(0xd800 <= unit <= 0xdfff),
    ensures
        gives(unit_escape(unit, upper), encode_scalar(unit as u32), rest),
{
    let all = unit_escape(unit, upper) + rest;
    lemma_quad(unit, upper, rest);
    assert(all[0] == 0x5c && all[1] == 0x75);
    assert(all.skip(1).skip(1) =~= all.skip(2));
    assert(all.skip(6) =~= rest);
}

#[verifier::spinoff_prover]
#[verifier::rlimit(60)]
proof fn lemma_numbered(character: char, upper: bool, rest: Seq<u8>)
    ensures
        gives(numbered(character, upper), encode_scalar(character as u32), rest),
{
    let scalar = character as u32 as int;
    char_is_scalar(character);
    if scalar < 0x1_0000 {
        lemma_unit(scalar, upper, rest);
    } else {
        let high = 0xd800 + (scalar - 0x1_0000) / 1024;
        let low = 0xdc00 + (scalar - 0x1_0000) % 1024;
        let (first, second) = (unit_escape(high, upper), unit_escape(low, upper));
        let all = numbered(character, upper) + rest;
        assert(all =~= first + (second + rest));
        lemma_quad(high, upper, second + rest);
        lemma_quad(low, upper, rest);
        assert(all[0] == 0x5c && all[1] == 0x75);
        let after = all.skip(1);
        assert(after.skip(1) =~= (first + (second + rest)).skip(2));
        assert(after[5] == 0x5c && after[6] == 0x75);
        assert(after.skip(7) =~= (second + rest).skip(2));
        assert(0x1_0000 + (high - 0xd800) * 1024 + (low - 0xdc00) == scalar);
        assert(unicode_escape(after) == Some((scalar as u32, 11int)));
        assert(all.skip(12) =~= rest);
    }
}

proof fn lemma_wide_bytes(scalar: u32)
    by (bit_vector)
    requires
        scalar <= 0x10_ffff,
    ensures
        scalar >= 0x80 && scalar <= 0x7ff ==> (0xc0u8 | ((scalar >> 6) & 0x1f) as u8) >= 0x80u8,
        scalar >= 0x800 && scalar <= 0xffff ==> (0xe0u8 | ((scalar >> 12) & 0x0f) as u8) >= 0x80u8,
        (0xf0u8 | ((scalar >> 18) & 0x7) as u8) >= 0x80u8,
        (0x80u8 | (scalar & 0x3f) as u8) >= 0x80u8,
        (0x80u8 | ((scalar >> 6) & 0x3f) as u8) >= 0x80u8,
        (0x80u8 | ((scalar >> 12) & 0x3f) as u8) >= 0x80u8,
        scalar <= 0x7f ==> ((scalar & 0x7f) as u8) as u32 == scalar,
{
}

proof fn lemma_own_bytes(character: char)
    requires
        character as u32 >= 32,
        character != '"',
        character != '\\',
    ensures
        plain(encode_scalar(character as u32)),
{
    char_is_scalar(character);
    lemma_wide_bytes(character as u32);
}

proof fn lemma_escaped_character(character: char, upper: bool, rest: Seq<u8>)
    ensures
        gives(escaped_character(character, upper), encode_scalar(character as u32), rest),
{
    let scalar = character as u32;
    char_is_scalar(character);
    lemma_wide_bytes(scalar);
    let bytes = encode_scalar(scalar);
    if scalar < 0x80 {
        assert(bytes =~= seq![scalar as u8]);
    }
    if character == '"' {
        lemma_short_escape(0x22, 0x22, rest);
    } else if character == '\\' {
        lemma_short_escape(0x5c, 0x5c, rest);
    } else if scalar == 8 {
        lemma_short_escape(0x62, 0x08, rest);
    } else if scalar == 12 {
        lemma_short_escape(0x66, 0x0c, rest);
    } else if scalar == 10 {
        lemma_short_escape(0x6e, 0x0a, rest);
    } else if scalar == 13 {
        lemma_short_escape(0x72, 0x0d, rest);
    } else if scalar == 9 {
        lemma_short_escape(0x74, 0x09, rest);
    } else if scalar < 32 {
        lemma_unit(scalar as int, upper, rest);
    } else {
        lemma_own_bytes(character);
        lemma_plain(bytes, rest);
    }
}

proof fn lemma_escaped_text(text: Seq<char>, upper: bool)
    ensures
        unescaped(escaped_text(text, upper)) == Some(encode_utf8(text)),
    decreases text.len(),
{
    if text.len() == 0 {
        assert(encode_utf8(text) =~= Seq::<u8>::empty());
    } else {
        lemma_escaped_text(text.drop_first(), upper);
        lemma_escaped_character(text[0], upper, escaped_text(text.drop_first(), upper));
    }
}

proof fn lemma_numbered_text(text: Seq<char>, upper: bool)
    ensures
        unescaped(numbered_text(text, upper)) == Some(encode_utf8(text)),
    decreases text.len(),
{
    if text.len() == 0 {
        assert(encode_utf8(text) =~= Seq::<u8>::empty());
    } else {
        lemma_numbered_text(text.drop_first(), upper);
        lemma_numbered(text[0], upper, numbered_text(text.drop_first(), upper));
    }
}

proof fn lemma_without_backslash(raw: Seq<u8>)
    requires
        !raw.contains(0x5c),
        unescaped(raw) is Some,
    ensures
        unescaped(raw) == Some(raw),
    decreases raw.len(),
{
    if raw.len() > 0 {
        assert(raw.contains(raw[0]));
        let later = raw.skip(1);
        assert(!later.contains(0x5c)) by {
            if later.contains(0x5c) {
                let i = choose|i: int| 0 <= i < later.len() && later[i] == 0x5c;
                assert(raw[i + 1] == 0x5c);
            }
        }
        lemma_without_backslash(later);
        assert(seq![raw[0]] + later =~= raw);
    } else {
        assert(raw =~= Seq::empty());
    }
}

proof fn lemma_message(raw: Seq<u8>, text: Seq<char>)
    requires
        unescaped(raw) == Some(encode_utf8(text)),
    ensures
        message_of(raw) == Some(text),
{
    encode_utf8_valid_utf8(text);
    encode_utf8_decode_utf8(text);
    if !raw.contains(0x5c) {
        lemma_without_backslash(raw);
    }
}

/// A text written as a JSON string is read back as the text: a quote and a
/// backslash behind a backslash, control characters by their escapes.
pub proof fn escaped_texts_are_read_back(text: Seq<char>, upper: bool)
    ensures
        message_of(escaped_text(text, upper)) == Some(text),
{
    lemma_escaped_text(text, upper);
    lemma_message(escaped_text(text, upper), text);
}

/// A text whose every character is written by its number, in one unit or as a pair
/// of surrogates, is read back as the text.
pub proof fn numbered_texts_are_read_back(text: Seq<char>, upper: bool)
    ensures
        message_of(numbered_text(text, upper)) == Some(text),
{
    lemma_numbered_text(text, upper);
    lemma_message(numbered_text(text, upper), text);
}

/// A backslash before a backslash, a quote or a slash stands for what follows it,
/// wherever it stands.
pub proof fn escaped_marks_stand_for_themselves(mark: u8, rest: Seq<u8>)
    requires
        mark == 0x5c || mark == 0x22 || mark == 0x2f,
    ensures
        unescaped(seq![0x5cu8, mark] + rest) == match unescaped(rest) {
            Some(decoded) => Some(seq![mark] + decoded),
            None => None,
        },
{
    lemma_short_escape(mark, mark, rest);
}

/// A string is refused where a backslash stands before anything but a quote, a
/// backslash, a slash, `b`, `f`, `n`, `r`, `t` or `u`, or at its end.
pub proof fn unknown_escapes_are_refused(before: Seq<u8>, after: Seq<u8>)
    requires
        plain(before),
        after.len() > 0 ==> !(seq![
            0x22u8,
            0x5cu8,
            0x2fu8,
            0x62u8,
            0x66u8,
            0x6eu8,
            0x72u8,
            0x74u8,
            0x75u8,
        ].contains(after[0])),
    ensures
        message_of(before + (seq![0x5cu8] + after)) is None,
{
    let known = seq![
        0x22u8,
        0x5cu8,
        0x2fu8,
        0x62u8,
        0x66u8,
        0x6eu8,
        0x72u8,
        0x74u8,
        0x75u8,
    ];
    let rest = seq![0x5cu8] + after;
    let raw = before + rest;
    lemma_plain(before, rest);
    assert(rest[0] == 0x5c);
    assert(raw[before.len() as int] == 0x5c);
    if after.len() > 0 {
        assert(rest[1] == after[0]);
        assert(known[0] == 0x22 && known[1] == 0x5c && known[2] == 0x2f && known[3] == 0x62
            && known[4] == 0x66 && known[5] == 0x6e && known[6] == 0x72 && known[7] == 0x74
            && known[8] == 0x75);
    }
}

/// A string with an escape is refused where a surrogate stands alone.
pub proof fn lone_surrogates_are_refused(before: Seq<u8>, unit: int, upper: bool, after: Seq<u8>)
    requires
        plain(before),
        0xd800 <= unit <= 0xdfff,
        unit >= 0xdc00 || after.len() == 0 || after[0] != 0x5c,
    ensures
        message_of(before + (unit_escape(unit, upper) + after)) is None,
{
    let rest = unit_escape(unit, upper) + after;
    let raw = before + rest;
    lemma_plain(before, rest);
    lemma_quad(unit, upper, after);
    assert(rest[0] == 0x5c && rest[1] == 0x75);
    assert(raw[before.len() as int] == 0x5c);
    let marker = rest.skip(1);
    assert(marker.skip(1) =~= rest.skip(2));
    if after.len() > 0 {
        assert(marker[5] == after[0]);
    }
}

/// A message without a backslash is the text of its bytes.
pub proof fn plain_messages_are_their_text(text: Seq<char>)
    requires
        !encode_utf8(text).contains(0x5c),
    ensures
        message_of(encode_utf8(text)) == Some(text),
{
    encode_utf8_valid_utf8(text);
    encode_utf8_decode_utf8(text);
    assert(text_of(encode_utf8(text)) == Some(text));
}

} // verus!
