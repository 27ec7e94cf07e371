//! Numbers written and read back, and what trimming and splitting keep.

use vstd::arithmetic::power::{lemma_pow0, lemma_pow1, lemma_pow_adds, pow};
use vstd::prelude::*;

use crate::text::{
    all_digits, all_hex, decimal, digit_char, digits_value, hex_bytes, hex_fixed, hex_padded,
    is_digit, lowercase, nibble, signed_decimal, split_on, trimmed, unsigned_value, white_space,
    without_leading_space, without_trailing_space, zero_padded,
};

verus! {

/// The value of one digit, decimal or hexadecimal in small letters.
pub open spec fn digit_worth(character: char) -> int {
    if 'a' <= character <= 'f' {
        character as u32 - 'a' as u32 + 10
    } else {
        character as u32 - '0' as u32
    }
}

/// The number that digits spell in a base, the highest first.
pub open spec fn spelled_number(digits: Seq<char>, base: int) -> int
    decreases digits.len(),
{
    if digits.len() == 0 {
        0
    } else {
        base * spelled_number(digits.drop_last(), base) + digit_worth(digits.last())
    }
}

proof fn lemma_digit(digit: nat)
    requires
        digit < 16,
    ensures
        digit_worth(digit_char(digit)) == digit,
        digit < 10 <==> is_digit(digit_char(digit)),
        digit >= 10 ==> 'a' <= digit_char(digit) <= 'f',
{
}

/// A number in decimal reads back as itself: its digits spell it, it has no
/// leading zero, and the reader of unsigned numbers gives it, with or without a
/// plus sign, exactly where it is within the limit.
pub proof fn decimals_read_back(value: nat, limit: nat)
    ensures
        spelled_number(decimal(value), 10) == value,
        digits_value(decimal(value)) == value,
        all_digits(decimal(value)),
        decimal(value).len() > 0,
        value > 0 ==> decimal(value)[0] != '0',
        value == 0 ==> decimal(value) == seq!['0'],
        unsigned_value(decimal(value), limit) == (if value <= limit {
            Some(value)
        } else {
            None
        }),
        unsigned_value(seq!['+'] + decimal(value), limit) == (if value <= limit {
            Some(value)
        } else {
            None
        }),
    decreases value,
{
    let digits = decimal(value);
    if value < 10 {
        lemma_digit(value);
        assert(digits.drop_last() =~= Seq::<char>::empty());
        assert(digits_value(digits.drop_last()) == 0);
        assert(spelled_number(digits.drop_last(), 10) == 0);
        assert(digits.last() == digit_char(value));
    } else {
        decimals_read_back(value / 10, limit);
        lemma_digit(value % 10);
        assert(digits.drop_last() =~= decimal(value / 10));
        assert(digits.last() == digit_char(value % 10));
        assert(digits[0] == decimal(value / 10)[0]);
    }
    let signed = seq!['+'] + digits;
    assert(signed.skip(1) =~= digits);
    assert(is_digit(digits[0]));
}

/// A negative number in decimal is a minus sign and its distance from zero.
pub proof fn signed_decimals_read_back(value: int)
    ensures
        value >= 0 ==> spelled_number(signed_decimal(value), 10) == value,
        value < 0 ==> signed_decimal(value)[0] == '-' && spelled_number(
            signed_decimal(value).skip(1),
            10,
        ) == -value,
{
    if value < 0 {
        decimals_read_back((-value) as nat, 0);
        assert(signed_decimal(value).skip(1) =~= decimal((-value) as nat));
    } else {
        decimals_read_back(value as nat, 0);
    }
}

/// Whether every character is a hexadecimal digit in small letters.
pub open spec fn all_small_hex(text: Seq<char>) -> bool {
    forall|i: int|
        0 <= i < text.len() ==> ('0' <= (#[trigger] text[i]) <= '9' || 'a' <= text[i] <= 'f')
}

proof fn lemma_power_step(base: int, width: nat)
    requires
        width > 0,
        base > 0,
    ensures
        pow(base, width) == base * pow(base, (width - 1) as nat),
{
    lemma_pow_adds(base, 1, (width - 1) as nat);
    lemma_pow1(base);
}

/// A number in hexadecimal of a fixed width has that many digits, in small letters,
/// and they spell it wherever it fits.
pub proof fn fixed_hex_reads_back(value: nat, width: nat)
    ensures
        hex_fixed(value, width).len() == width,
        all_small_hex(hex_fixed(value, width)),
        value < pow(16, width) ==> spelled_number(hex_fixed(value, width), 16) == value,
    decreases width,
{
    lemma_pow0(16);
    if width > 0 {
        let narrower = (width - 1) as nat;
        lemma_power_step(16, width);
        fixed_hex_reads_back(value / 16, narrower);
        lemma_digit(value % 16);
        assert(hex_fixed(value, width).drop_last() =~= hex_fixed(value / 16, narrower));
    }
}

/// A number in hexadecimal of a least width has at least that many digits, in
/// small letters, and they spell it.
pub proof fn padded_hex_reads_back(value: nat, width: nat)
    ensures
        hex_padded(value, width).len() >= width,
        all_small_hex(hex_padded(value, width)),
        spelled_number(hex_padded(value, width), 16) == value,
    decreases value, width,
{
    let digits = hex_padded(value, width);
    if value < 16 && width <= 1 {
        lemma_digit(value);
        assert(digits.drop_last() =~= Seq::<char>::empty());
        assert(spelled_number(digits.drop_last(), 16) == 0);
        assert(digits.last() == digit_char(value));
    } else {
        let narrower = if width > 0 {
            (width - 1) as nat
        } else {
            0
        };
        padded_hex_reads_back(value / 16, narrower);
        lemma_digit(value % 16);
        assert(digits.drop_last() =~= hex_padded(value / 16, narrower));
        assert(digits.last() == digit_char(value % 16));
    }
}

/// A number padded with zeros has at least the width, spells the number, and has
/// exactly the width where the number is not longer.
pub proof fn padded_decimals_read_back(value: nat, width: nat)
    ensures
        zero_padded(value, width).len() >= width,
        all_digits(zero_padded(value, width)),
        spelled_number(zero_padded(value, width), 10) == value,
        width > 0 && value < pow(10, width) ==> zero_padded(value, width).len() == width,
    decreases width,
{
    lemma_pow0(10);
    lemma_pow1(10);
    if width <= 1 {
        decimals_read_back(value, value);
    } else {
        let narrower = (width - 1) as nat;
        lemma_power_step(10, width);
        padded_decimals_read_back(value / 10, narrower);
        lemma_digit(value % 10);
        assert(zero_padded(value, width).drop_last() =~= zero_padded(value / 10, narrower));
    }
}

/// Whether every character is white space.
pub open spec fn blank_text(text: Seq<char>) -> bool {
    forall|i: int| 0 <= i < text.len() ==> white_space(#[trigger] text[i])
}

proof fn lemma_leading(text: Seq<char>) -> (front: Seq<char>)
    ensures
        text == front + without_leading_space(text),
        blank_text(front),
        without_leading_space(text).len() > 0 ==> !white_space(without_leading_space(text)[0]),
    decreases text.len(),
{
    if text.len() > 0 && white_space(text[0]) {
        let rest = lemma_leading(text.skip(1));
        let front = seq![text[0]] + rest;
        assert(text =~= seq![text[0]] + text.skip(1));
        assert(text =~= front + without_leading_space(text.skip(1)));
        assert forall|i: int| 0 <= i < front.len() implies white_space(#[trigger] front[i]) by {
            if i > 0 {
                assert(front[i] == rest[i - 1]);
            }
        }
        front
    } else {
        assert(text =~= Seq::<char>::empty() + text);
        Seq::empty()
    }
}

proof fn lemma_trailing(text: Seq<char>) -> (back: Seq<char>)
    ensures
        text == without_trailing_space(text) + back,
        blank_text(back),
        without_trailing_space(text).len() > 0 ==> !white_space(
            without_trailing_space(text).last(),
        ),
    decreases text.len(),
{
    if text.len() > 0 && white_space(text.last()) {
        let rest = lemma_trailing(text.drop_last());
        let back = rest.push(text.last());
        assert(text =~= text.drop_last().push(text.last()));
        assert(text =~= without_trailing_space(text.drop_last()) + back);
        assert forall|i: int| 0 <= i < back.len() implies white_space(#[trigger] back[i]) by {
            if i < rest.len() {
                assert(back[i] == rest[i]);
            }
        }
        back
    } else {
        assert(text =~= text + Seq::<char>::empty());
        Seq::empty()
    }
}

/// Trimming takes white space off both ends and nothing else: a text is its
/// trimmed text between white space, and what is left neither begins nor ends with
/// any.
pub proof fn trimming_takes_outer_space(text: Seq<char>) -> (ends: (Seq<char>, Seq<char>))
    ensures
        text == ends.0 + trimmed(text) + ends.1,
        blank_text(ends.0),
        blank_text(ends.1),
        trimmed(text).len() > 0 ==> !white_space(trimmed(text)[0]) && !white_space(
            trimmed(text).last(),
        ),
{
    let front = lemma_leading(text);
    let middle = without_leading_space(text);
    let back = lemma_trailing(middle);
    assert(text =~= front + trimmed(text) + back);
    if trimmed(text).len() > 0 {
        assert(trimmed(text)[0] == middle[0]);
    }
    (front, back)
}

/// A text between white space is trimmed to itself where it neither begins nor
/// ends with any.
pub proof fn framed_texts_are_trimmed(front: Seq<char>, text: Seq<char>, back: Seq<char>)
    requires
        blank_text(front),
        blank_text(back),
        text.len() > 0,
        !white_space(text[0]),
        !white_space(text.last()),
    ensures
        trimmed(front + text + back) == text,
{
    lemma_front_is_taken(front, text + back);
    assert(front + text + back =~= front + (text + back));
    lemma_back_is_taken(text, back);
}

proof fn lemma_front_is_taken(front: Seq<char>, text: Seq<char>)
    requires
        blank_text(front),
        text.len() > 0,
        !white_space(text[0]),
    ensures
        without_leading_space(front + text) == text,
    decreases front.len(),
{
    let all = front + text;
    if front.len() == 0 {
        assert(all =~= text);
    } else {
        assert(all[0] == front[0]);
        assert(all.skip(1) =~= front.skip(1) + text);
        lemma_front_is_taken(front.skip(1), text);
    }
}

proof fn lemma_back_is_taken(text: Seq<char>, back: Seq<char>)
    requires
        blank_text(back),
        text.len() > 0,
        !white_space(text.last()),
    ensures
        without_trailing_space(text + back) == text,
    decreases back.len(),
{
    let all = text + back;
    if back.len() == 0 {
        assert(all =~= text);
    } else {
        assert(all.last() == back[back.len() - 1]);
        assert(all.drop_last() =~= text + back.drop_last());
        lemma_back_is_taken(text, back.drop_last());
    }
}

/// Spaces, tabs and line ends are white space; what can be seen of ASCII is not.
pub proof fn printed_characters_are_not_blank(character: char)
    ensures
        white_space(' ') && white_space('\t') && white_space('\n') && white_space('\r'),
        33 <= character as u32 <= 126 ==> !white_space(character),
{
}

/// Parts with a separator between each two.
pub open spec fn rejoined(parts: Seq<Seq<char>>, separator: char) -> Seq<char>
    decreases parts.len(),
{
    if parts.len() == 0 {
        Seq::empty()
    } else if parts.len() == 1 {
        parts[0]
    } else {
        rejoined(parts.drop_last(), separator).push(separator) + parts.last()
    }
}

/// The parts of a text, rejoined, are the text, and no part holds the separator.
pub proof fn parts_rejoin(text: Seq<char>, separator: char)
    ensures
        split_on(text, separator).len() > 0,
        rejoined(split_on(text, separator), separator) == text,
        forall|i: int|
            0 <= i < split_on(text, separator).len() ==> !(#[trigger] split_on(
                text,
                separator,
            )[i]).contains(separator),
    decreases text.len(),
{
    let parts = split_on(text, separator);
    if text.len() == 0 {
        assert(rejoined(parts, separator) =~= text);
    } else {
        let shorter = text.drop_last();
        let before = split_on(shorter, separator);
        parts_rejoin(shorter, separator);
        assert(text =~= shorter.push(text.last()));
        if text.last() == separator {
            assert(parts.drop_last() =~= before);
            assert(rejoined(parts, separator) =~= text);
        } else {
            let grown = before.last().push(text.last());
            assert(parts.drop_last() =~= before.drop_last());
            assert(parts.last() == grown);
            assert(!grown.contains(separator)) by {
                if grown.contains(separator) {
                    let i = choose|i: int| 0 <= i < grown.len() && grown[i] == separator;
                    assert(before.last()[i] == separator);
                    assert(before[before.len() - 1].contains(separator));
                }
            }
            if before.len() == 1 {
                assert(rejoined(parts, separator) =~= text);
            } else {
                assert(rejoined(parts, separator) =~= rejoined(before, separator).push(
                    text.last(),
                ));
            }
        }
    }
}

/// Bytes as pairs of hexadecimal digits, in small letters.
pub open spec fn hex_pairs(bytes: Seq<u8>) -> Seq<u8> {
    Seq::new(
        2 * bytes.len(),
        |i: int|
            digit_char(
                if i % 2 == 0 {
                    (bytes[i / 2] / 16) as nat
                } else {
                    (bytes[i / 2] % 16) as nat
                },
            ) as u8,
    )
}

/// Bytes written as pairs of hexadecimal digits are read back.
pub proof fn hex_pairs_read_back(bytes: Seq<u8>)
    ensures
        all_hex(hex_pairs(bytes)),
        hex_bytes(hex_pairs(bytes)) == bytes,
{
    let digits = hex_pairs(bytes);
    assert forall|i: int| 0 <= i < digits.len() implies (#[trigger] nibble(digits[i])) is Some by {
        lemma_digit((bytes[i / 2] / 16) as nat);
        lemma_digit((bytes[i / 2] % 16) as nat);
    }
    assert forall|i: int| 0 <= i < bytes.len() implies hex_bytes(digits)[i] == bytes[i] by {
        lemma_digit((bytes[i] / 16) as nat);
        lemma_digit((bytes[i] % 16) as nat);
        assert(2 * i / 2 == i && (2 * i + 1) / 2 == i);
        assert(2 * i % 2 == 0 && (2 * i + 1) % 2 == 1);
    }
    assert(hex_bytes(digits) =~= bytes);
}

/// Hexadecimal digits are taken in either case, and nothing else is.
pub proof fn hex_digits_have_two_cases(digit: u8)
    ensures
        nibble(digit) is Some <==> (48 <= digit <= 57 || 65 <= digit <= 70 || 97 <= digit <= 102),
        65 <= digit <= 70 ==> nibble(digit) == nibble((digit + 32) as u8),
        48 <= digit <= 57 ==> nibble(digit) == Some((digit - 48) as u8),
        97 <= digit <= 102 ==> nibble(digit) == Some((digit - 87) as u8),
{
}

/// Lowering a text changes its ASCII capitals alone, each to its small letter.
pub proof fn lowering_changes_capitals(text: Seq<char>, at: int)
    requires
        0 <= at < text.len(),
    ensures
        lowercase(text).len() == text.len(),
        65 <= text[at] as u32 <= 90 ==> lowercase(text)[at] as u32 == text[at] as u32 + 32,
        !(65 <= text[at] as u32 <= 90) ==> lowercase(text)[at] == text[at],
{
}

} // verus!
