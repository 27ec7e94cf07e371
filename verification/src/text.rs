//! Text building and scanning: decimal and hexadecimal rendering, trimming,
//! ASCII case folding, splitting and unsigned number parsing.

use vstd::prelude::*;

verus! {

/// `String::push` appends one character.
pub assume_specification[ std::string::String::push ](text: &mut std::string::String, character: char)
    ensures
        final(text)@ == old(text)@.push(character),
;

/// The text that Rust's `Debug` formatting gives for a string: quoted, with
/// escapes.
pub uninterp spec fn debug_quoted(text: Seq<char>) -> Seq<char>;

/// Formats `text` with `{:?}`, the `Debug` implementation of `str`. The claim
/// is only that the result is a function of the characters.
#[verifier::external_body]
pub(crate) fn debug_text(text: &str) -> (quoted: String)
    ensures
        quoted@ == debug_quoted(text@),
{
    format!("{text:?}")
}

/// Calls `std::str::from_utf8`: text exactly where the bytes are valid UTF-8,
/// and then the text that they encode.
#[verifier::external_body]
pub(crate) fn decode_text(bytes: &[u8]) -> (text: Option<String>)
    ensures
        match text {
            Some(decoded) => vstd::utf8::valid_utf8(bytes@) && decoded@
                == vstd::utf8::decode_utf8(bytes@),
            None => !vstd::utf8::valid_utf8(bytes@),
        },
{
    match std::str::from_utf8(bytes) {
        Ok(text) => Some(text.to_owned()),
        Err(_) => None,
    }
}

/// The decimal digit character of `digit`.
pub open spec fn digit_char(digit: nat) -> char {
    if digit == 0 {
        '0'
    } else if digit == 1 {
        '1'
    } else if digit == 2 {
        '2'
    } else if digit == 3 {
        '3'
    } else if digit == 4 {
        '4'
    } else if digit == 5 {
        '5'
    } else if digit == 6 {
        '6'
    } else if digit == 7 {
        '7'
    } else if digit == 8 {
        '8'
    } else if digit == 9 {
        '9'
    } else if digit == 10 {
        'a'
    } else if digit == 11 {
        'b'
    } else if digit == 12 {
        'c'
    } else if digit == 13 {
        'd'
    } else if digit == 14 {
        'e'
    } else {
        'f'
    }
}

/// Decimal rendering without leading zeros.
pub open spec fn decimal(value: nat) -> Seq<char>
    decreases value,
{
    if value < 10 {
        seq![digit_char(value)]
    } else {
        decimal(value / 10).push(digit_char(value % 10))
    }
}

/// Decimal rendering of a possibly negative integer.
pub open spec fn signed_decimal(value: int) -> Seq<char> {
    if value < 0 {
        seq!['-'] + decimal((-value) as nat)
    } else {
        decimal(value as nat)
    }
}

/// Lowercase hexadecimal rendering with exactly `width` digits.
pub open spec fn hex_fixed(value: nat, width: nat) -> Seq<char>
    decreases width,
{
    if width == 0 {
        Seq::empty()
    } else {
        hex_fixed(value / 16, (width - 1) as nat).push(digit_char(value % 16))
    }
}

/// Decimal rendering padded on the left with zeros to at least `width` digits.
pub open spec fn zero_padded(value: nat, width: nat) -> Seq<char>
    decreases width,
{
    if width <= 1 {
        decimal(value)
    } else {
        zero_padded(value / 10, (width - 1) as nat).push(digit_char(value % 10))
    }
}

fn digit_character(digit: u8) -> (character: char)
    requires
        digit < 16,
    ensures
        character == digit_char(digit as nat),
{
    match digit {
        0 => '0',
        1 => '1',
        2 => '2',
        3 => '3',
        4 => '4',
        5 => '5',
        6 => '6',
        7 => '7',
        8 => '8',
        9 => '9',
        10 => 'a',
        11 => 'b',
        12 => 'c',
        13 => 'd',
        14 => 'e',
        _ => 'f',
    }
}

/// Appends the decimal rendering of `value`.
pub fn push_decimal(text: &mut String, value: u128)
    ensures
        final(text)@ == old(text)@ + decimal(value as nat),
    decreases value,
{
    if value >= 10 {
        push_decimal(text, value / 10);
    }
    text.push(digit_character((value % 10) as u8));
    assert(text@ =~= old(text)@ + decimal(value as nat));
}

/// Appends the decimal rendering of a signed integer.
pub fn push_signed(text: &mut String, value: i64)
    ensures
        final(text)@ == old(text)@ + signed_decimal(value as int),
{
    if value < 0 {
        text.push('-');
        push_decimal(text, (-(value as i128)) as u128);
        assert(text@ =~= old(text)@ + signed_decimal(value as int));
    } else {
        push_decimal(text, value as u128);
    }
}

/// Appends exactly `width` lowercase hexadecimal digits of `value`.
pub fn push_hex(text: &mut String, value: u128, width: usize)
    ensures
        final(text)@ == old(text)@ + hex_fixed(value as nat, width as nat),
    decreases width,
{
    if width > 0 {
        push_hex(text, value / 16, width - 1);
        text.push(digit_character((value % 16) as u8));
    }
    assert(text@ =~= old(text)@ + hex_fixed(value as nat, width as nat));
}

/// Hexadecimal digits of a number, at least `width` of them.
pub open spec fn hex_padded(value: nat, width: nat) -> Seq<char>
    decreases value, width,
{
    if value < 16 && width <= 1 {
        seq![digit_char(value)]
    } else {
        let narrower = if width > 0 {
            (width - 1) as nat
        } else {
            0
        };
        hex_padded(value / 16, narrower).push(digit_char(value % 16))
    }
}

/// Appends the hexadecimal digits of a number, at least `width` of them.
pub fn push_hex_padded(text: &mut String, value: u128, width: usize)
    ensures
        final(text)@ == old(text)@ + hex_padded(value as nat, width as nat),
    decreases value, width,
{
    if value >= 16 || width > 1 {
        let narrower = if width > 0 {
            width - 1
        } else {
            0
        };
        push_hex_padded(text, value / 16, narrower);
    }
    text.push(digit_character((value % 16) as u8));
    assert(text@ =~= old(text)@ + hex_padded(value as nat, width as nat));
}

/// Appends `value` in decimal, padded with zeros to at least `width` digits.
pub fn push_zero_padded(text: &mut String, value: u128, width: usize)
    ensures
        final(text)@ == old(text)@ + zero_padded(value as nat, width as nat),
    decreases width,
{
    if width <= 1 {
        push_decimal(text, value);
    } else {
        push_zero_padded(text, value / 10, width - 1);
        text.push(digit_character((value % 10) as u8));
        assert(text@ =~= old(text)@ + zero_padded(value as nat, width as nat));
    }
}

/// The characters of a string slice.
pub fn characters(text: &str) -> (characters: Vec<char>)
    ensures
        characters@ == text@,
{
    let mut collected: Vec<char> = Vec::new();
    for character in iter: text.chars()
        invariant
            collected@ == iter.seq().take(iter.index()),
            iter.seq() == text@,
    {
        collected.push(character);
    }
    assert(text@.take(text@.len() as int) =~= text@);
    collected
}

/// The string made of `characters`.
pub fn string_from(characters: &[char]) -> (text: String)
    ensures
        text@ == characters@,
{
    let mut text = String::new();
    let mut index: usize = 0;
    while index < characters.len()
        invariant
            index <= characters@.len(),
            text@ == characters@.take(index as int),
        decreases characters@.len() - index,
    {
        text.push(characters[index]);
        index = index + 1;
        assert(characters@.take(index as int) =~= characters@.take(index - 1).push(
            characters@[index - 1],
        ));
    }
    assert(characters@.take(index as int) =~= characters@);
    text
}

/// The characters with the Unicode `White_Space` property.
pub open spec fn white_space(character: char) -> bool {
    let code = character as u32;
    ||| 0x09 <= code <= 0x0d
    ||| code == 0x20
    ||| code == 0x85
    ||| code == 0xa0
    ||| code == 0x1680
    ||| 0x2000 <= code <= 0x200a
    ||| 0x2028 <= code <= 0x2029
    ||| code == 0x202f
    ||| code == 0x205f
    ||| code == 0x3000
}

/// Whether a character is Unicode white space.
pub fn is_white_space(character: char) -> (result: bool)
    ensures
        result == white_space(character),
{
    let code: u32 = character as u32;
    (0x09 <= code && code <= 0x0d) || code == 0x20 || code == 0x85 || code == 0xa0 || code
        == 0x1680 || (0x2000 <= code && code <= 0x200a) || (0x2028 <= code && code <= 0x2029)
        || code == 0x202f || code == 0x205f || code == 0x3000
}

/// `text` without its leading white space.
pub open spec fn without_leading_space(text: Seq<char>) -> Seq<char>
    decreases text.len(),
{
    if text.len() > 0 && white_space(text[0]) {
        without_leading_space(text.skip(1))
    } else {
        text
    }
}

/// `text` without its trailing white space.
pub open spec fn without_trailing_space(text: Seq<char>) -> Seq<char>
    decreases text.len(),
{
    if text.len() > 0 && white_space(text.last()) {
        without_trailing_space(text.drop_last())
    } else {
        text
    }
}

/// `text` without white space at either end.
pub open spec fn trimmed(text: Seq<char>) -> Seq<char> {
    without_trailing_space(without_leading_space(text))
}

/// Removes white space from both ends.
pub fn trim(text: &[char]) -> (result: &[char])
    ensures
        result@ == trimmed(text@),
{
    assert(text.len() == text@.len());
    let mut start: usize = 0;
    assert(text@.skip(0) =~= text@);
    while start < text.len() && is_white_space(text[start])
        invariant
            start <= text@.len(),
            text.len() == text@.len(),
            without_leading_space(text@) == without_leading_space(text@.skip(start as int)),
        decreases text@.len() - start,
    {
        assert(text@.skip(start as int).skip(1) =~= text@.skip(start + 1));
        start = start + 1;
    }
    let ghost body = text@.skip(start as int);
    assert(without_leading_space(text@) == body);
    let mut end: usize = text.len();
    assert(text@.subrange(start as int, end as int) =~= body);
    while end > start && is_white_space(text[end - 1])
        invariant
            start <= end <= text@.len(),
            text.len() == text@.len(),
            without_trailing_space(body) == without_trailing_space(
                text@.subrange(start as int, end as int),
            ),
        decreases end,
    {
        assert(text@.subrange(start as int, end as int).drop_last() =~= text@.subrange(
            start as int,
            end - 1,
        ));
        end = end - 1;
    }
    vstd::slice::slice_subrange(text, start, end)
}

/// ASCII lowercase of one character.
pub open spec fn ascii_lower(character: char) -> char {
    if 'A' <= character <= 'Z' {
        (character as u32 + 32) as char
    } else {
        character
    }
}

/// Lowercases one ASCII letter and leaves other characters alone.
pub fn to_ascii_lower(character: char) -> (lower: char)
    ensures
        lower == ascii_lower(character),
{
    if 'A' <= character && character <= 'Z' {
        let lower: u8 = character as u8 + 32;
        lower as char
    } else {
        character
    }
}

/// ASCII lowercase of a text.
pub open spec fn lowercase(text: Seq<char>) -> Seq<char> {
    Seq::new(text.len(), |i: int| ascii_lower(text[i]))
}

/// Lowercases every ASCII letter of `text`.
pub fn to_lowercase(text: &[char]) -> (lower: Vec<char>)
    ensures
        lower@ == lowercase(text@),
{
    let mut lower: Vec<char> = Vec::new();
    let mut index: usize = 0;
    while index < text.len()
        invariant
            index <= text@.len(),
            lower@ == lowercase(text@).take(index as int),
        decreases text@.len() - index,
    {
        lower.push(to_ascii_lower(text[index]));
        index = index + 1;
        assert(lowercase(text@).take(index as int) =~= lowercase(text@).take(index - 1).push(
            ascii_lower(text@[index - 1]),
        ));
    }
    assert(lowercase(text@).take(index as int) =~= lowercase(text@));
    lower
}

/// Whether a character is an ASCII decimal digit.
pub open spec fn is_digit(character: char) -> bool {
    '0' <= character <= '9'
}

/// Value of a sequence of ASCII digits.
pub open spec fn digits_value(digits: Seq<char>) -> nat
    decreases digits.len(),
{
    if digits.len() == 0 {
        0
    } else {
        digits_value(digits.drop_last()) * 10 + (digits.last() as u32 - '0' as u32) as nat
    }
}

/// Whether every character is an ASCII digit.
pub open spec fn all_digits(text: Seq<char>) -> bool {
    forall|i: int| 0 <= i < text.len() ==> is_digit(#[trigger] text[i])
}

/// `text` without the plus sign that may stand before its digits.
pub open spec fn unsigned_digits(text: Seq<char>) -> Seq<char> {
    if text.len() > 1 && text[0] == '+' {
        text.skip(1)
    } else {
        text
    }
}

/// The number that `text` denotes: an optional plus sign and at least one
/// digit, with a value of at most `limit`.
pub open spec fn unsigned_value(text: Seq<char>, limit: nat) -> Option<nat> {
    let digits = unsigned_digits(text);
    if digits.len() > 0 && all_digits(digits) && digits_value(digits) <= limit {
        Some(digits_value(digits))
    } else {
        None
    }
}

/// A longer run of digits is worth no less than its prefix.
proof fn lemma_digits_grow(digits: Seq<char>, length: int)
    requires
        0 <= length <= digits.len(),
        all_digits(digits),
    ensures
        digits_value(digits.take(length)) <= digits_value(digits),
    decreases digits.len() - length,
{
    if length == digits.len() {
        assert(digits.take(length) =~= digits);
    } else {
        lemma_digits_grow(digits, length + 1);
        assert(digits.take(length + 1).drop_last() =~= digits.take(length));
    }
}

/// Parses an unsigned decimal number of at most `limit`.
pub fn parse_unsigned(text: &[char], limit: u64) -> (value: Option<u64>)
    ensures
        match value {
            Some(number) => unsigned_value(text@, limit as nat) == Some(number as nat),
            None => unsigned_value(text@, limit as nat) is None,
        },
{
    assert(text.len() == text@.len());
    let start: usize = if text.len() > 1 && text[0] == '+' {
        1
    } else {
        0
    };
    let ghost digits = text@.skip(start as int);
    assert(text@.skip(0) =~= text@);
    assert(digits == unsigned_digits(text@));
    if start == text.len() {
        return None;
    }
    let mut value: u64 = 0;
    let mut index: usize = start;
    assert(digits.take(0) =~= Seq::<char>::empty());
    while index < text.len()
        invariant
            start <= index <= text@.len(),
            text.len() == text@.len(),
            digits == text@.skip(start as int),
            digits == unsigned_digits(text@),
            start < text@.len(),
            forall|i: int| 0 <= i < index - start ==> is_digit(digits[i]),
            value == digits_value(digits.take(index - start)),
            value <= limit,
        decreases text@.len() - index,
    {
        let character = text[index];
        assert(character == digits[index - start]);
        if character < '0' || character > '9' {
            assert(!is_digit(digits[index - start]));
            return None;
        }
        let digit: u64 = (character as u32 - '0' as u32) as u64;
        let ghost longer = digits.take(index - start + 1);
        assert(longer.drop_last() =~= digits.take(index - start));
        assert(longer.last() == character);
        assert(digits_value(longer) == value * 10 + digit);
        if limit < digit || value > (limit - digit) / 10 {
            proof {
                assert(digits_value(longer) > limit);
                if all_digits(digits) {
                    lemma_digits_grow(digits, index - start + 1);
                }
            }
            return None;
        }
        value = value * 10 + digit;
        index = index + 1;
    }
    assert(digits.take(index - start) =~= digits);
    Some(value)
}

/// The parts of `text` between occurrences of `separator`.
pub open spec fn split_on(text: Seq<char>, separator: char) -> Seq<Seq<char>>
    decreases text.len(),
{
    if text.len() == 0 {
        seq![Seq::empty()]
    } else {
        let rest = split_on(text.drop_last(), separator);
        if text.last() == separator {
            rest.push(Seq::empty())
        } else {
            rest.update(rest.len() - 1, rest.last().push(text.last()))
        }
    }
}

/// Every text has at least one part.
pub proof fn lemma_split_on_nonempty(text: Seq<char>, separator: char)
    ensures
        split_on(text, separator).len() > 0,
    decreases text.len(),
{
    if text.len() > 0 {
        lemma_split_on_nonempty(text.drop_last(), separator);
    }
}

/// Views of a sequence of character vectors.
pub open spec fn views(parts: Seq<Vec<char>>) -> Seq<Seq<char>> {
    Seq::new(parts.len(), |i: int| parts[i]@)
}

/// Splits `text` at every `separator`.
pub fn split(text: &[char], separator: char) -> (parts: Vec<Vec<char>>)
    ensures
        views(parts@) == split_on(text@, separator),
        parts@.len() > 0,
{
    let mut parts: Vec<Vec<char>> = Vec::new();
    let mut part: Vec<char> = Vec::new();
    let mut index: usize = 0;
    assert(text@.take(0) =~= Seq::<char>::empty());
    assert(views(parts@).push(part@) =~= seq![Seq::<char>::empty()]);
    while index < text.len()
        invariant
            index <= text@.len(),
            views(parts@).push(part@) == split_on(text@.take(index as int), separator),
        decreases text@.len() - index,
    {
        let ghost prefix = text@.take(index as int);
        let ghost longer = text@.take(index + 1);
        assert(longer.drop_last() =~= prefix);
        assert(longer.last() == text@[index as int]);
        let ghost before = views(parts@).push(part@);
        if text[index] == separator {
            let ghost finished = part@;
            let ghost earlier = parts@;
            parts.push(part);
            part = Vec::new();
            assert(views(parts@) =~= views(earlier).push(finished));
            assert(views(parts@).push(part@) =~= before.push(Seq::empty()));
        } else {
            let ghost shorter = part@;
            part.push(text[index]);
            assert(views(parts@).push(part@) =~= before.update(
                before.len() - 1,
                before.last().push(text@[index as int]),
            ));
        }
        index = index + 1;
    }
    assert(text@.take(index as int) =~= text@);
    let ghost earlier = parts@;
    let ghost last = part@;
    parts.push(part);
    assert(views(parts@) =~= views(earlier).push(last));
    parts
}

/// Whether two character slices are equal.
pub fn same_text(left: &[char], right: &[char]) -> (same: bool)
    ensures
        same == (left@ == right@),
{
    if left.len() != right.len() {
        return false;
    }
    let mut index: usize = 0;
    while index < left.len()
        invariant
            index <= left@.len(),
            left@.len() == right@.len(),
            left@.take(index as int) == right@.take(index as int),
        decreases left@.len() - index,
    {
        if left[index] != right[index] {
            return false;
        }
        index = index + 1;
        assert(left@.take(index as int) =~= left@.take(index - 1).push(left@[index - 1]));
        assert(right@.take(index as int) =~= right@.take(index - 1).push(right@[index - 1]));
    }
    assert(left@.take(index as int) =~= left@);
    assert(right@.take(index as int) =~= right@);
    true
}

/// Whether two byte slices are equal.
pub fn same_bytes(left: &[u8], right: &[u8]) -> (same: bool)
    ensures
        same == (left@ == right@),
{
    if left.len() != right.len() {
        return false;
    }
    let mut index: usize = 0;
    while index < left.len()
        invariant
            index <= left@.len(),
            left@.len() == right@.len(),
            forall|i: int| 0 <= i < index ==> left@[i] == right@[i],
        decreases left@.len() - index,
    {
        if left[index] != right[index] {
            return false;
        }
        index = index + 1;
    }
    assert(left@ =~= right@);
    true
}

/// Whether two string slices hold the same characters.
pub fn same_str(left: &str, right: &str) -> (same: bool)
    ensures
        same == (left@ == right@),
{
    let same = same_bytes(left.as_bytes(), right.as_bytes());
    proof {
        vstd::utf8::encode_utf8_decode_utf8(left@);
        vstd::utf8::encode_utf8_decode_utf8(right@);
    }
    same
}

/// Views of a sequence of strings.
pub open spec fn text_views(texts: Seq<String>) -> Seq<Seq<char>> {
    texts.map_values(|text: String| text@)
}

/// Whether `text` begins with `prefix`.
pub open spec fn has_prefix(text: Seq<char>, prefix: Seq<char>) -> bool {
    prefix.len() <= text.len() && text.take(prefix.len() as int) == prefix
}

/// What follows `prefix`, where `text` begins with it.
pub fn strip_prefix(text: &str, prefix: &str) -> (rest: Option<String>)
    ensures
        match rest {
            Some(tail) => has_prefix(text@, prefix@) && tail@ == text@.skip(prefix@.len() as int),
            None => !has_prefix(text@, prefix@),
        },
{
    let text_characters = characters(text);
    let prefix_characters = characters(prefix);
    if prefix_characters.len() > text_characters.len() {
        return None;
    }
    let head = vstd::slice::slice_subrange(
        text_characters.as_slice(),
        0,
        prefix_characters.len(),
    );
    assert(head@ =~= text@.take(prefix@.len() as int));
    if !same_text(head, prefix_characters.as_slice()) {
        return None;
    }
    let tail = vstd::slice::slice_subrange(
        text_characters.as_slice(),
        prefix_characters.len(),
        text_characters.len(),
    );
    assert(tail@ =~= text@.skip(prefix@.len() as int));
    Some(string_from(tail))
}

/// Value of a hexadecimal digit, in either case.
pub open spec fn nibble(digit: u8) -> Option<u8> {
    if 0x30 <= digit <= 0x39 {
        Some((digit - 0x30) as u8)
    } else if 0x61 <= digit <= 0x66 {
        Some((digit - 0x61 + 10) as u8)
    } else if 0x41 <= digit <= 0x46 {
        Some((digit - 0x41 + 10) as u8)
    } else {
        None
    }
}

/// Value of a hexadecimal digit, in either case.
pub fn hex_nibble(digit: u8) -> (value: Option<u8>)
    ensures
        value == nibble(digit),
{
    if digit >= 0x30 && digit <= 0x39 {
        Some(digit - 0x30)
    } else if digit >= 0x61 && digit <= 0x66 {
        Some(digit - 0x61 + 10)
    } else if digit >= 0x41 && digit <= 0x46 {
        Some(digit - 0x41 + 10)
    } else {
        None
    }
}

/// Whether every byte is a hexadecimal digit.
pub open spec fn all_hex(digits: Seq<u8>) -> bool {
    forall|i: int| 0 <= i < digits.len() ==> (#[trigger] nibble(digits[i])) is Some
}

/// The bytes that pairs of hexadecimal digits spell.
pub open spec fn hex_bytes(digits: Seq<u8>) -> Seq<u8> {
    Seq::new(
        digits.len() / 2,
        |i: int| (nibble(digits[2 * i])->0 * 16 + nibble(digits[2 * i + 1])->0) as u8,
    )
}

/// Decodes pairs of hexadecimal digits, where all of them are.
pub fn decode_hex_pairs(digits: &[u8]) -> (bytes: Option<Vec<u8>>)
    requires
        digits@.len() % 2 == 0,
    ensures
        match bytes {
            Some(decoded) => all_hex(digits@) && decoded@ == hex_bytes(digits@),
            None => !all_hex(digits@),
        },
{
    let mut bytes: Vec<u8> = Vec::new();
    let mut index: usize = 0;
    assert(digits.len() == digits@.len());
    while index < digits.len()
        invariant
            index <= digits@.len(),
            digits.len() == digits@.len(),
            digits@.len() % 2 == 0,
            index % 2 == 0,
            bytes@.len() == index / 2,
            forall|i: int| 0 <= i < index ==> (#[trigger] nibble(digits@[i])) is Some,
            forall|i: int| 0 <= i < index / 2 ==> #[trigger] bytes@[i] == hex_bytes(digits@)[i],
        decreases digits@.len() - index,
    {
        match (hex_nibble(digits[index]), hex_nibble(digits[index + 1])) {
            (Some(high), Some(low)) => {
                assert(high < 16 && low < 16);
                bytes.push(high * 16 + low);
                assert(hex_bytes(digits@)[index as int / 2] == high * 16 + low) by {
                    assert(2 * (index as int / 2) == index);
                }
            },
            _ => {
                assert(nibble(digits@[index as int]) is None || nibble(digits@[index + 1]) is None);
                return None;
            },
        }
        index = index + 2;
    }
    assert(bytes@ =~= hex_bytes(digits@));
    Some(bytes)
}

/// Whether text ends in a character.
pub fn has_suffix_char(text: &String, suffix: char) -> (ends: bool)
    ensures
        ends == (text@.len() > 0 && text@.last() == suffix),
{
    let letters = characters(text.as_str());
    letters.len() > 0 && letters[letters.len() - 1] == suffix
}

} // verus!
