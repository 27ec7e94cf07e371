//! Numbers and byte counts in command-line arguments.

use vstd::prelude::*;

use crate::text::{
    characters, is_digit, lowercase, same_text, string_from, to_lowercase, trim, trimmed,
};

verus! {

/// Why text is not a number.
#[derive(Debug, Clone, Copy, PartialEq, Eq, Structural)]
pub enum NumberFault {
    /// There is no text.
    Empty,
    /// Something other than a digit stands for one.
    Digit,
    /// The number is too large.
    Overflow,
}

/// What is said of text that is not a number.
pub open spec fn number_complaint(fault: NumberFault) -> Seq<char> {
    match fault {
        NumberFault::Empty => "cannot parse integer from empty string"@,
        NumberFault::Digit => "invalid digit found in string"@,
        NumberFault::Overflow => "number too large to fit in target type"@,
    }
}

/// The value of digits, up to a limit. The first fault counts.
pub open spec fn digits_number(digits: Seq<char>, limit: nat) -> Result<nat, NumberFault>
    decreases digits.len(),
{
    if digits.len() == 0 {
        Ok(0)
    } else {
        match digits_number(digits.drop_last(), limit) {
            Err(fault) => Err(fault),
            Ok(value) => if !is_digit(digits.last()) {
                Err(NumberFault::Digit)
            } else if value * 10 + (digits.last() as nat - '0' as nat) > limit {
                Err(NumberFault::Overflow)
            } else {
                Ok((value * 10 + (digits.last() as nat - '0' as nat)) as nat)
            },
        }
    }
}

/// The number that text stands for, up to a limit. One plus sign may lead.
pub open spec fn number_of(text: Seq<char>, limit: nat) -> Result<nat, NumberFault> {
    if text.len() == 0 {
        Err(NumberFault::Empty)
    } else if text.len() == 1 && (text[0] == '+' || text[0] == '-') {
        Err(NumberFault::Digit)
    } else if text[0] == '+' {
        digits_number(text.skip(1), limit)
    } else {
        digits_number(text, limit)
    }
}

/// Says what is wrong with a number.
pub fn complain_number(fault: NumberFault) -> (complaint: String)
    ensures
        complaint@ == number_complaint(fault),
{
    match fault {
        NumberFault::Empty => "cannot parse integer from empty string",
        NumberFault::Digit => "invalid digit found in string",
        NumberFault::Overflow => "number too large to fit in target type",
    }.to_owned()
}

/// Reads a number of at most `limit`.
pub fn read_number(text: &[char], limit: u64) -> (number: Result<u64, NumberFault>)
    ensures
        match number {
            Ok(number) => number_of(text@, limit as nat) == Ok::<nat, NumberFault>(number as nat)
                && number <= limit,
            Err(fault) => number_of(text@, limit as nat) == Err::<nat, NumberFault>(fault),
        },
{
    assert(text.len() == text@.len());
    if text.len() == 0 {
        return Err(NumberFault::Empty);
    }
    if text.len() == 1 && (text[0] == '+' || text[0] == '-') {
        return Err(NumberFault::Digit);
    }
    let start: usize = if text[0] == '+' {
        1
    } else {
        0
    };
    let ghost digits = text@.skip(start as int);
    assert(text@.skip(0) =~= text@);
    let mut value: u64 = 0;
    let mut next: usize = start;
    assert(digits.take(0) =~= Seq::<char>::empty());
    while next < text.len()
        invariant
            start <= next <= text@.len(),
            text.len() == text@.len(),
            digits == text@.skip(start as int),
            digits_number(digits.take(next - start), limit as nat) == Ok::<nat, NumberFault>(
                value as nat,
            ),
            value <= limit,
            number_of(text@, limit as nat) == digits_number(digits, limit as nat),
        decreases text@.len() - next,
    {
        let ghost longer = digits.take(next + 1 - start);
        assert(longer.drop_last() =~= digits.take(next - start));
        assert(longer.last() == text@[next as int]);
        proof {
            lemma_fault_stays(digits, next + 1 - start, limit as nat);
        }
        let character = text[next];
        if character < '0' || character > '9' {
            return Err(NumberFault::Digit);
        }
        let digit = character as u64 - 48;
        let grown = value as u128 * 10 + digit as u128;
        if grown > limit as u128 {
            return Err(NumberFault::Overflow);
        }
        value = grown as u64;
        next = next + 1;
    }
    assert(digits.take(next - start) =~= digits);
    Ok(value)
}

proof fn lemma_fault_stays(digits: Seq<char>, count: int, limit: nat)
    requires
        0 <= count <= digits.len(),
    ensures
        digits_number(digits.take(count), limit) matches Err(fault) ==> digits_number(digits, limit)
            == Err::<nat, NumberFault>(fault),
    decreases digits.len(),
{
    if count == digits.len() {
        assert(digits.take(count) =~= digits);
    } else {
        lemma_fault_stays(digits.drop_last(), count, limit);
        assert(digits.drop_last().take(count) =~= digits.take(count));
    }
}

/// The digits that text starts with.
pub open spec fn leading_digits(text: Seq<char>) -> Seq<char>
    decreases text.len(),
{
    if text.len() == 0 || !is_digit(text[0]) {
        Seq::empty()
    } else {
        seq![text[0]] + leading_digits(text.skip(1))
    }
}

/// Bytes of an IEC unit.
pub open spec fn unit_bytes(unit: Seq<char>) -> Option<nat> {
    if unit == ""@ || unit == "b"@ {
        Some(1)
    } else if unit == "kib"@ {
        Some(1_024)
    } else if unit == "mib"@ {
        Some(1_048_576)
    } else if unit == "gib"@ {
        Some(1_073_741_824)
    } else {
        None
    }
}

/// The bytes that a count with its unit stands for, or what is said of it.
pub open spec fn byte_count(input: Seq<char>) -> Result<nat, Seq<char>> {
    let text = trimmed(input);
    let digits = leading_digits(text);
    let unit = text.skip(digits.len() as int);
    if digits.len() == 0 {
        Err("invalid byte count: "@ + input)
    } else {
        match unit_bytes(lowercase(unit)) {
            None => Err("unsupported byte suffix: "@ + unit),
            Some(bytes) => match digits_number(digits, u64::MAX as nat) {
                Err(fault) => Err(number_complaint(fault)),
                Ok(number) => if number * bytes > u64::MAX {
                    Err("byte count overflows u64: "@ + input)
                } else {
                    Ok(number * bytes)
                },
            },
        }
    }
}

/// Compares characters with a word.
pub fn is_word(text: &[char], word: &str) -> (same: bool)
    ensures
        same == (text@ == word@),
{
    let letters = characters(word);
    same_text(text, letters.as_slice())
}

fn unit_multiplier(unit: &[char]) -> (bytes: Option<u64>)
    ensures
        match bytes {
            Some(bytes) => unit_bytes(unit@) == Some(bytes as nat) && bytes <= 1_073_741_824,
            None => unit_bytes(unit@) is None,
        },
{
    if is_word(unit, "") || is_word(unit, "b") {
        Some(1)
    } else if is_word(unit, "kib") {
        Some(1_024)
    } else if is_word(unit, "mib") {
        Some(1_048_576)
    } else if is_word(unit, "gib") {
        Some(1_073_741_824)
    } else {
        None
    }
}

/// Reads a byte count with an optional IEC unit.
pub fn parse_byte_count(input: &str) -> (count: Result<u64, String>)
    ensures
        match count {
            Ok(count) => byte_count(input@) == Ok::<nat, Seq<char>>(count as nat),
            Err(complaint) => byte_count(input@) == Err::<nat, Seq<char>>(complaint@),
        },
{
    let letters = characters(input);
    let text = trim(letters.as_slice());
    assert(text.len() == text@.len());
    let mut split: usize = 0;
    let ghost mut seen: Seq<char> = Seq::empty();
    assert(text@.skip(0) =~= text@);
    assert(leading_digits(text@) =~= seen + leading_digits(text@.skip(0)));
    while split < text.len() && text[split] >= '0' && text[split] <= '9'
        invariant
            split <= text@.len(),
            text.len() == text@.len(),
            seen == text@.take(split as int),
            leading_digits(text@) == seen + leading_digits(text@.skip(split as int)),
        decreases text@.len() - split,
    {
        proof {
            let rest = text@.skip(split as int);
            assert(rest[0] == text@[split as int]);
            assert(rest.skip(1) =~= text@.skip(split + 1));
            seen = seen.push(text@[split as int]);
            assert(seen =~= text@.take(split + 1));
            assert(leading_digits(text@) =~= seen + leading_digits(text@.skip(split + 1)));
        }
        split = split + 1;
    }
    proof {
        let rest = text@.skip(split as int);
        if split < text@.len() {
            assert(rest[0] == text@[split as int]);
        }
        assert(leading_digits(rest) =~= Seq::<char>::empty());
        assert(leading_digits(text@) =~= text@.take(split as int));
    }
    if split == 0 {
        let mut complaint = "invalid byte count: ".to_owned();
        complaint.append(input);
        return Err(complaint);
    }
    let digits = vstd::slice::slice_subrange(text, 0, split);
    assert(digits@ =~= leading_digits(text@));
    let unit = vstd::slice::slice_subrange(text, split, text.len());
    assert(unit@ =~= text@.skip(split as int));
    let lower = to_lowercase(unit);
    let bytes = match unit_multiplier(lower.as_slice()) {
        Some(bytes) => bytes,
        None => {
            let mut complaint = "unsupported byte suffix: ".to_owned();
            let suffix = string_from(unit);
            complaint.append(suffix.as_str());
            return Err(complaint);
        },
    };
    proof {
        lemma_leading_digits(text@);
        assert(digits@[0] != '+' && digits@[0] != '-');
    }
    match read_number(digits, u64::MAX) {
        Err(fault) => Err(complain_number(fault)),
        Ok(number) => {
            assert(0 <= number * bytes <= u64::MAX * 1_073_741_824) by (nonlinear_arith)
                requires
                    0 <= number <= u64::MAX,
                    0 <= bytes <= 1_073_741_824,
            ;
            let product = number as u128 * bytes as u128;
            if product > u64::MAX as u128 {
                let mut complaint = "byte count overflows u64: ".to_owned();
                complaint.append(input);
                return Err(complaint);
            }
            Ok(product as u64)
        },
    }
}

proof fn lemma_leading_digits(text: Seq<char>)
    ensures
        forall|i: int| 0 <= i < leading_digits(text).len() ==> is_digit(#[trigger] leading_digits(text)[i]),
    decreases text.len(),
{
    if text.len() > 0 && is_digit(text[0]) {
        lemma_leading_digits(text.skip(1));
        let inner = leading_digits(text.skip(1));
        let all = leading_digits(text);
        assert forall|i: int| 0 <= i < all.len() implies is_digit(#[trigger] all[i]) by {
            if i > 0 {
                assert(all[i] == inner[i - 1]);
            }
        }
    }
}

/// Whether text ends with other text.
pub open spec fn ends_in(text: Seq<char>, suffix: Seq<char>) -> bool {
    text.len() >= suffix.len() && text.skip(text.len() - suffix.len()) == suffix
}

/// Tells whether characters end with a word.
pub fn ends_in_word(text: &[char], word: &str) -> (ends: bool)
    ensures
        ends == ends_in(text@, word@),
{
    assert(text.len() == text@.len());
    let letters = characters(word);
    if text.len() < letters.len() {
        return false;
    }
    let tail = vstd::slice::slice_subrange(text, text.len() - letters.len(), text.len());
    assert(tail@ =~= text@.skip(text@.len() - word@.len()));
    same_text(tail, letters.as_slice())
}

/// The bytes that a size stands for: a number, and a unit that it ends in.
pub open spec fn size_of_text(input: Seq<char>) -> Result<nat, NumberFault> {
    let text = lowercase(trimmed(input));
    let (digits, unit) = if ends_in(text, "gib"@) {
        (text.take(text.len() - "gib"@.len()), 1_073_741_824nat)
    } else if ends_in(text, "mib"@) {
        (text.take(text.len() - "mib"@.len()), 1_048_576nat)
    } else if ends_in(text, "kib"@) {
        (text.take(text.len() - "kib"@.len()), 1_024nat)
    } else {
        (text, 1nat)
    };
    match number_of(digits, u64::MAX as nat) {
        Err(fault) => Err(fault),
        Ok(number) => Ok(
            if number * unit > u64::MAX {
                u64::MAX as nat
            } else {
                number * unit
            },
        ),
    }
}

/// Reads a size with an optional IEC unit, stopping at the largest number.
pub fn parse_size(value: &str) -> (size: Result<u64, String>)
    ensures
        match size {
            Ok(size) => size_of_text(value@) == Ok::<nat, NumberFault>(size as nat),
            Err(complaint) => match size_of_text(value@) {
                Ok(_) => false,
                Err(fault) => complaint@ == number_complaint(fault),
            },
        },
{
    let letters = characters(value);
    let lower = to_lowercase(trim(letters.as_slice()));
    let text = lower.as_slice();
    assert(text.len() == text@.len());
    proof {
        reveal_strlit("gib");
        reveal_strlit("mib");
        reveal_strlit("kib");
    }
    let (taken, unit): (usize, u64) = if ends_in_word(text, "gib") {
        (text.len() - 3, 1_073_741_824)
    } else if ends_in_word(text, "mib") {
        (text.len() - 3, 1_048_576)
    } else if ends_in_word(text, "kib") {
        (text.len() - 3, 1_024)
    } else {
        (text.len(), 1)
    };
    let digits = vstd::slice::slice_subrange(text, 0, taken);
    assert(digits@ =~= text@.take(taken as int));
    assert(text@.take(text@.len() as int) =~= text@);
    match read_number(digits, u64::MAX) {
        Err(fault) => Err(complain_number(fault)),
        Ok(number) => {
            assert(0 <= number * unit <= u64::MAX * 1_073_741_824) by (nonlinear_arith)
                requires
                    0 <= number <= u64::MAX,
                    0 <= unit <= 1_073_741_824,
            ;
            let product = number as u128 * unit as u128;
            Ok(
                if product > u64::MAX as u128 {
                    u64::MAX
                } else {
                    product as u64
                },
            )
        },
    }
}

} // verus!
