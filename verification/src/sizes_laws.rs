//! Sizes written with their unit and read back.

use vstd::prelude::*;

use crate::sizes::{
    byte_count, digits_number, ends_in, leading_digits, number_of, size_of_text, unit_bytes,
    NumberFault,
};
use crate::text::{all_digits, decimal, digits_value, is_digit, lowercase, trimmed, white_space};
use crate::text_laws::{blank_text, decimals_read_back, framed_texts_are_trimmed};

verus! {

proof fn lemma_digits(digits: Seq<char>, limit: nat)
    requires
        all_digits(digits),
    ensures
        digits_number(digits, limit) == (if digits_value(digits) <= limit {
            Ok::<nat, NumberFault>(digits_value(digits))
        } else {
            Err::<nat, NumberFault>(NumberFault::Overflow)
        }),
    decreases digits.len(),
{
    if digits.len() > 0 {
        lemma_digits(digits.drop_last(), limit);
        assert(is_digit(digits[digits.len() - 1]));
    }
}

/// A number in decimal is read as itself where it is within the limit, and is too
/// large otherwise; a plus sign before it changes nothing.
pub proof fn numbers_read_back(value: nat, limit: nat)
    ensures
        number_of(decimal(value), limit) == (if value <= limit {
            Ok::<nat, NumberFault>(value)
        } else {
            Err::<nat, NumberFault>(NumberFault::Overflow)
        }),
        number_of(seq!['+'] + decimal(value), limit) == number_of(decimal(value), limit),
{
    let digits = decimal(value);
    decimals_read_back(value, limit);
    lemma_digits(digits, limit);
    assert(is_digit(digits[0]));
    assert((seq!['+'] + digits).skip(1) =~= digits);
}

/// A text with anything but digits behind its sign is no number.
pub proof fn other_texts_are_no_numbers(text: Seq<char>, at: int, limit: nat)
    requires
        0 < at < text.len(),
        !is_digit(text[at]),
    ensures
        number_of(text, limit) is Err,
{
    if text[0] == '+' {
        assert(text.skip(1)[at - 1] == text[at]);
        lemma_refused(text.skip(1), at - 1, limit);
    } else {
        lemma_refused(text, at, limit);
    }
}

proof fn lemma_refused(digits: Seq<char>, at: int, limit: nat)
    requires
        0 <= at < digits.len(),
        !is_digit(digits[at]),
    ensures
        digits_number(digits, limit) is Err,
    decreases digits.len(),
{
    if at < digits.len() - 1 {
        lemma_refused(digits.drop_last(), at, limit);
    }
}

/// How many bytes the units of sizes stand for: 1024 times the one before.
pub open spec fn worth(unit: Seq<char>) -> nat {
    if unit == seq!['k', 'i', 'b'] {
        1024
    } else if unit == seq!['m', 'i', 'b'] {
        1024 * 1024
    } else if unit == seq!['g', 'i', 'b'] {
        1024 * 1024 * 1024
    } else {
        1
    }
}

/// Whether a text is a unit, in any case.
pub open spec fn names_unit(unit: Seq<char>) -> bool {
    let lower = lowercase(unit);
    ||| unit.len() == 0
    ||| lower == seq!['k', 'i', 'b']
    ||| lower == seq!['m', 'i', 'b']
    ||| lower == seq!['g', 'i', 'b']
}

proof fn lemma_leading(digits: Seq<char>, rest: Seq<char>)
    requires
        all_digits(digits),
        rest.len() == 0 || !is_digit(rest[0]),
    ensures
        leading_digits(digits + rest) == digits,
    decreases digits.len(),
{
    let all = digits + rest;
    if digits.len() == 0 {
        assert(all =~= rest);
        assert(leading_digits(all) =~= digits);
    } else {
        assert(all[0] == digits[0]);
        assert(is_digit(digits[0]));
        assert(all.skip(1) =~= digits.skip(1) + rest);
        assert forall|i: int| 0 <= i < digits.skip(1).len() implies is_digit(
            #[trigger] digits.skip(1)[i],
        ) by {
            assert(is_digit(digits[i + 1]));
        }
        lemma_leading(digits.skip(1), rest);
        assert(seq![digits[0]] + digits.skip(1) =~= digits);
    }
}

proof fn lemma_units()
    ensures
        "kib"@ == seq!['k', 'i', 'b'],
        "mib"@ == seq!['m', 'i', 'b'],
        "gib"@ == seq!['g', 'i', 'b'],
        "b"@ == seq!['b'],
        ""@ == Seq::<char>::empty(),
{
    reveal_strlit("kib");
    reveal_strlit("mib");
    reveal_strlit("gib");
    reveal_strlit("b");
    reveal_strlit("");
    assert("kib"@ =~= seq!['k', 'i', 'b']);
    assert("mib"@ =~= seq!['m', 'i', 'b']);
    assert("gib"@ =~= seq!['g', 'i', 'b']);
    assert("b"@ =~= seq!['b']);
    assert(""@ =~= Seq::<char>::empty());
}

proof fn lemma_unit_letters(unit: Seq<char>)
    requires
        names_unit(unit),
    ensures
        unit.len() == 0 || unit.len() == 3,
        unit.len() > 0 ==> !is_digit(unit[0]) && !white_space(unit.last()),
{
    let lower = lowercase(unit);
    if unit.len() > 0 {
        assert(lower.len() == 3);
        assert(lower[0] == 'k' || lower[0] == 'm' || lower[0] == 'g');
        assert(lower[2] == 'b');
        assert(unit.last() == unit[2]);
    }
}

/// A number with its unit, in any case and between white space, is read as the
/// number times the bytes of the unit where that fits into 64 bits.
pub proof fn byte_counts_read_back(
    front: Seq<char>,
    value: nat,
    unit: Seq<char>,
    back: Seq<char>,
)
    requires
        blank_text(front),
        blank_text(back),
        names_unit(unit),
        value <= u64::MAX,
    ensures
        value * worth(lowercase(unit)) <= u64::MAX ==> byte_count(
            front + (decimal(value) + unit) + back,
        ) == Ok::<nat, Seq<char>>(value * worth(lowercase(unit))),
        value * worth(lowercase(unit)) > u64::MAX ==> byte_count(
            front + (decimal(value) + unit) + back,
        ) is Err,
{
    let digits = decimal(value);
    let text = digits + unit;
    decimals_read_back(value, u64::MAX as nat);
    lemma_units();
    lemma_unit_letters(unit);
    assert(is_digit(digits[0]));
    assert(text[0] == digits[0]);
    assert(is_digit(digits[digits.len() - 1]));
    if unit.len() > 0 {
        assert(text.last() == unit.last());
    } else {
        assert(text.last() == digits[digits.len() - 1]);
        assert(lowercase(unit) =~= Seq::<char>::empty());
    }
    framed_texts_are_trimmed(front, text, back);
    lemma_leading(digits, unit);
    assert(text.skip(digits.len() as int) =~= unit);
    lemma_digits(digits, u64::MAX as nat);
    lemma_tell_units();
}

proof fn lemma_tell_units()
    ensures
        seq!['k', 'i', 'b'] != seq!['m', 'i', 'b'],
        seq!['k', 'i', 'b'] != seq!['g', 'i', 'b'],
        seq!['m', 'i', 'b'] != seq!['g', 'i', 'b'],
        seq!['k', 'i', 'b'] != seq!['b'],
        seq!['m', 'i', 'b'] != seq!['b'],
        seq!['g', 'i', 'b'] != seq!['b'],
{
    assert(seq!['k', 'i', 'b'][0] != seq!['m', 'i', 'b'][0]);
    assert(seq!['k', 'i', 'b'][0] != seq!['g', 'i', 'b'][0]);
    assert(seq!['m', 'i', 'b'][0] != seq!['g', 'i', 'b'][0]);
    assert(seq!['k', 'i', 'b'].len() != seq!['b'].len());
    assert(seq!['m', 'i', 'b'].len() != seq!['b'].len());
    assert(seq!['g', 'i', 'b'].len() != seq!['b'].len());
}

/// A size with its unit, in any case and between white space, is read as the
/// number times the bytes of the unit, and as the largest 64-bit number where that
/// does not fit.
pub proof fn sizes_read_back(front: Seq<char>, value: nat, unit: Seq<char>, back: Seq<char>)
    requires
        blank_text(front),
        blank_text(back),
        names_unit(unit),
        value <= u64::MAX,
    ensures
        size_of_text(front + (decimal(value) + unit) + back) == Ok::<nat, NumberFault>(
            if value * worth(lowercase(unit)) <= u64::MAX {
                value * worth(lowercase(unit))
            } else {
                u64::MAX as nat
            },
        ),
{
    let digits = decimal(value);
    let text = digits + unit;
    decimals_read_back(value, u64::MAX as nat);
    lemma_units();
    lemma_tell_units();
    lemma_unit_letters(unit);
    assert(is_digit(digits[0]));
    assert(text[0] == digits[0]);
    assert(is_digit(digits[digits.len() - 1]));
    if unit.len() > 0 {
        assert(text.last() == unit.last());
    } else {
        assert(text.last() == digits[digits.len() - 1]);
        assert(lowercase(unit) =~= Seq::<char>::empty());
    }
    framed_texts_are_trimmed(front, text, back);
    let lower = lowercase(text);
    assert forall|i: int| 0 <= i < digits.len() implies #[trigger] lower[i] == digits[i] by {
        assert(is_digit(digits[i]));
    }
    assert(lower =~= digits + lowercase(unit));
    numbers_read_back(value, u64::MAX as nat);
    if unit.len() == 0 {
        assert(lower =~= digits);
        assert(is_digit(lower[lower.len() - 1]));
        assert forall|suffix: Seq<char>|
            suffix.len() == 3 && suffix[2] == 'b' implies !(#[trigger] ends_in(lower, suffix)) by {
            if ends_in(lower, suffix) {
                assert(lower.skip(lower.len() - 3)[2] == lower[lower.len() - 1]);
            }
        }
        assert(seq!['k', 'i', 'b'][2] == 'b' && seq!['m', 'i', 'b'][2] == 'b'
            && seq!['g', 'i', 'b'][2] == 'b');
        assert(!ends_in(lower, "gib"@) && !ends_in(lower, "mib"@) && !ends_in(lower, "kib"@));
    } else {
        assert(lower.skip(lower.len() - 3) =~= lowercase(unit));
        assert(lower.take(lower.len() - 3) =~= digits);
        assert(ends_in(lower, lowercase(unit)));
    }
}

/// A count with a unit that is not known is refused.
pub proof fn unknown_units_are_refused(value: nat, unit: Seq<char>)
    requires
        unit.len() > 0,
        !is_digit(unit[0]),
        !white_space(unit.last()),
        !names_unit(unit),
        lowercase(unit) != seq!['b'],
    ensures
        byte_count(decimal(value) + unit) is Err,
{
    let digits = decimal(value);
    let text = digits + unit;
    decimals_read_back(value, value);
    lemma_units();
    assert(is_digit(digits[0]));
    assert(text.last() == unit.last());
    let nothing = Seq::<char>::empty();
    framed_texts_are_trimmed(nothing, text, nothing);
    assert(nothing + text + nothing =~= text);
    lemma_leading(digits, unit);
    assert(text.skip(digits.len() as int) =~= unit);
    assert(trimmed(text) == text);
    assert(unit_bytes(lowercase(unit)) is None);
}

} // verus!
