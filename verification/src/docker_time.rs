//! RFC 3339 timestamps as the Docker JSON log driver writes them.

use vstd::prelude::*;

use crate::text::same_bytes;

verus! {

/// Why text is not a timestamp.
#[derive(Debug, Clone, Copy, PartialEq, Eq, Structural)]
pub enum TimestampFault {
    /// Separators are not where they should be.
    Shape,
    /// Something other than a digit stands for one.
    NonDigit,
    /// A field is out of its range.
    Range,
    /// The end is neither `Z` nor a fraction and `Z`.
    Zone,
    /// The day lies before the Unix epoch.
    Epoch,
    /// The nanoseconds do not fit 64 bits.
    Overflow,
}

/// The value of one decimal digit.
pub open spec fn digit_of(byte: u8) -> Option<nat> {
    if 0x30 <= byte <= 0x39 {
        Some((byte - 0x30) as nat)
    } else {
        None
    }
}

/// The value of decimal digits.
pub open spec fn digits_of(bytes: Seq<u8>) -> Option<nat>
    decreases bytes.len(),
{
    if bytes.len() == 0 {
        Some(0)
    } else {
        match (digits_of(bytes.drop_last()), digit_of(bytes.last())) {
            (Some(value), Some(digit)) => Some(value * 10 + digit),
            _ => None,
        }
    }
}

/// A power of ten.
pub open spec fn ten_to(exponent: nat) -> nat
    decreases exponent,
{
    if exponent == 0 {
        1
    } else {
        10 * ten_to((exponent - 1) as nat)
    }
}

/// Whether a year has 366 days.
pub open spec fn leap(year: int) -> bool {
    year % 4 == 0 && (year % 100 != 0 || year % 400 == 0)
}

/// Days of a month.
pub open spec fn month_days(year: int, month: int) -> int {
    if month == 2 {
        if leap(year) {
            29
        } else {
            28
        }
    } else if month == 4 || month == 6 || month == 9 || month == 11 {
        30
    } else {
        31
    }
}

/// Days of a year before a month.
pub open spec fn days_before_month(year: int, month: int) -> int
    decreases month,
{
    if month <= 1 {
        0
    } else {
        days_before_month(year, month - 1) + month_days(year, month - 1)
    }
}

/// Days of all the years from year one to the one before.
pub open spec fn days_before_year(year: int) -> int {
    (year - 1) * 365 + (year - 1) / 4 - (year - 1) / 100 + (year - 1) / 400
}

/// Days from the Unix epoch to a civil date.
pub open spec fn civil_days(year: int, month: int, day: int) -> int {
    days_before_year(year) - days_before_year(1970) + days_before_month(year, month) + day - 1
}

/// A quotient grows by one at each multiple of its divisor.
proof fn quotient_steps(number: int, divisor: int)
    requires
        divisor > 0,
    ensures
        number / divisor == (number - 1) / divisor + (if number % divisor == 0 {
            1int
        } else {
            0int
        }),
{
    let quotient = number / divisor;
    let rest = number % divisor;
    vstd::arithmetic::div_mod::lemma_fundamental_div_mod(number, divisor);
    if rest == 0 {
        assert(number - 1 == (quotient - 1) * divisor + (divisor - 1)) by (nonlinear_arith)
            requires
                number == divisor * quotient,
        ;
        vstd::arithmetic::div_mod::lemma_fundamental_div_mod_converse(
            number - 1,
            divisor,
            quotient - 1,
            divisor - 1,
        );
    } else {
        assert(number - 1 == quotient * divisor + (rest - 1)) by (nonlinear_arith)
            requires
                number == divisor * quotient + rest,
        ;
        vstd::arithmetic::div_mod::lemma_fundamental_div_mod_converse(
            number - 1,
            divisor,
            quotient,
            rest - 1,
        );
    }
}

/// Days of a whole year.
proof fn year_length(year: int)
    ensures
        days_before_month(year, 13) == if leap(year) {
            366int
        } else {
            365int
        },
{
    reveal_with_fuel(days_before_month, 13);
}

/// Each year starts where the one before ended.
pub proof fn years_follow_each_other(year: int)
    ensures
        days_before_year(year + 1) == days_before_year(year) + days_before_month(year, 13),
{
    year_length(year);
    quotient_steps(year, 4);
    quotient_steps(year, 100);
    quotient_steps(year, 400);
    assert(year % 400 == 0 ==> year % 100 == 0);
    assert(year % 100 == 0 ==> year % 4 == 0);
}

/// Days from the Unix epoch by the calendar formula, whatever the month and the
/// day: years start in March and are counted in eras of four hundred.
pub open spec fn formula_days(year: int, month: int, day: int) -> int {
    let shifted = if month <= 2 {
        year - 1
    } else {
        year
    };
    let era = shifted / 400;
    let year_of_era = shifted - era * 400;
    let shifted_month = if month > 2 {
        month - 3
    } else {
        month + 9
    };
    let day_of_year = (153 * shifted_month + 2) / 5 + day - 1;
    era * 146_097 + (year_of_era * 365 + year_of_era / 4 - year_of_era / 100 + day_of_year)
        - 719_468
}

/// Days of the years up to the one that starts in March of `year`.
proof fn era_days(year: int)
    ensures
        ({
            let era = year / 400;
            let year_of_era = year - era * 400;
            era * 146_097 + (year_of_era * 365 + year_of_era / 4 - year_of_era / 100)
                == days_before_year(year + 1)
        }),
{
    let era = year / 400;
    let year_of_era = year - era * 400;
    assert(0 <= year_of_era < 400);
    assert(year / 4 == era * 100 + year_of_era / 4);
    assert(year / 100 == era * 4 + year_of_era / 100);
}

/// The days from the first of March to a month.
proof fn month_offsets(month: int)
    requires
        0 <= month <= 11,
    ensures
        (153 * month + 2) / 5 == if month == 0 {
            0int
        } else if month == 1 {
            31
        } else if month == 2 {
            61
        } else if month == 3 {
            92
        } else if month == 4 {
            122
        } else if month == 5 {
            153
        } else if month == 6 {
            184
        } else if month == 7 {
            214
        } else if month == 8 {
            245
        } else if month == 9 {
            275
        } else if month == 10 {
            306
        } else {
            337
        },
{
}

/// The calendar formula counts the days of the calendar, on every date.
pub proof fn formula_counts_civil_days(year: int, month: int, day: int)
    requires
        1 <= month <= 12,
    ensures
        formula_days(year, month, day) == civil_days(year, month, day),
{
    assert(days_before_year(1970) == 719_162);
    if month <= 2 {
        era_days(year - 1);
        month_offsets(month + 9);
        reveal_with_fuel(days_before_month, 3);
    } else {
        era_days(year);
        month_offsets(month - 3);
        years_follow_each_other(year);
        year_length(year);
        reveal_with_fuel(days_before_month, 13);
    }
}

/// Separators of a timestamp.
pub open spec fn date_shape(bytes: Seq<u8>) -> bool {
    bytes[4] == 0x2d && bytes[7] == 0x2d && bytes[10] == 0x54 && bytes[13] == 0x3a && bytes[16]
        == 0x3a
}

/// The fields of a date and time.
pub struct CivilTime {
    /// Year.
    pub year: nat,
    /// Month, from one.
    pub month: nat,
    /// Day of the month, from one.
    pub day: nat,
    /// Hour.
    pub hour: nat,
    /// Minute.
    pub minute: nat,
    /// Second.
    pub second: nat,
}

/// The fields of the first nineteen bytes of a timestamp.
pub open spec fn civil_fields(bytes: Seq<u8>) -> Option<CivilTime> {
    match (
        digits_of(bytes.subrange(0, 4)),
        digits_of(bytes.subrange(5, 7)),
        digits_of(bytes.subrange(8, 10)),
        digits_of(bytes.subrange(11, 13)),
        digits_of(bytes.subrange(14, 16)),
        digits_of(bytes.subrange(17, 19)),
    ) {
        (Some(year), Some(month), Some(day), Some(hour), Some(minute), Some(second)) => Some(
            CivilTime { year, month, day, hour, minute, second },
        ),
        _ => None,
    }
}

impl CivilTime {
    /// Whether every field is in its range.
    pub open spec fn in_range(self) -> bool {
        &&& 1 <= self.month <= 12
        &&& 1 <= self.day <= month_days(self.year as int, self.month as int)
        &&& self.hour < 24
        &&& self.minute < 60
        &&& self.second < 60
    }

    /// Days from the Unix epoch.
    pub open spec fn days(self) -> int {
        civil_days(self.year as int, self.month as int, self.day as int)
    }

    /// Nanoseconds from the Unix epoch.
    pub open spec fn nanos(self) -> int {
        (self.days() * 86_400 + self.hour * 3_600 + self.minute * 60 + self.second) * 1_000_000_000
    }
}

/// Nanoseconds of a fraction of a second.
pub open spec fn fraction_nanos(digits: Seq<u8>) -> Option<nat> {
    if 1 <= digits.len() <= 9 {
        match digits_of(digits) {
            Some(value) => Some(value * ten_to((9 - digits.len()) as nat)),
            None => None,
        }
    } else {
        None
    }
}

/// What follows the seconds of a timestamp.
pub open spec fn zone_nanos(rest: Seq<u8>) -> Result<nat, TimestampFault> {
    if rest.len() == 1 && rest[0] == 0x5a {
        Ok(0)
    } else if 3 <= rest.len() <= 11 && rest[0] == 0x2e && rest.last() == 0x5a {
        match fraction_nanos(rest.subrange(1, rest.len() - 1)) {
            Some(nanos) => Ok(nanos),
            None => Err(TimestampFault::NonDigit),
        }
    } else {
        Err(TimestampFault::Zone)
    }
}

/// Unix nanoseconds of a timestamp.
pub open spec fn timestamp_of(bytes: Seq<u8>) -> Result<nat, TimestampFault> {
    if bytes.len() < 20 || !date_shape(bytes) {
        Err(TimestampFault::Shape)
    } else {
        match civil_fields(bytes) {
            None => Err(TimestampFault::NonDigit),
            Some(time) => if !time.in_range() {
                Err(TimestampFault::Range)
            } else {
                match zone_nanos(bytes.skip(19)) {
                    Err(fault) => Err(fault),
                    Ok(fraction) => if time.days() < 0 {
                        Err(TimestampFault::Epoch)
                    } else if time.nanos() + fraction > u64::MAX {
                        Err(TimestampFault::Overflow)
                    } else {
                        Ok((time.nanos() + fraction) as nat)
                    },
                }
            },
        }
    }
}

/// Nanoseconds of the first nineteen bytes of a timestamp, where they are one.
pub open spec fn prefix_nanos(bytes: Seq<u8>) -> Option<nat> {
    if bytes.len() != 19 || !date_shape(bytes) {
        None
    } else {
        match civil_fields(bytes) {
            None => None,
            Some(time) => if time.in_range() && time.days() >= 0 && time.nanos() <= u64::MAX {
                Some(time.nanos() as nat)
            } else {
                None
            },
        }
    }
}

/// Whether a year has 366 days.
pub fn is_leap_year(year: i64) -> (leap_year: bool)
    ensures
        leap_year == leap(year as int),
{
    year % 4 == 0 && (year % 100 != 0 || year % 400 == 0)
}

/// Days of a month.
fn days_in_month(year: u64, month: u64) -> (days: u64)
    requires
        year <= 9_999,
    ensures
        days == month_days(year as int, month as int),
{
    match month {
        4 | 6 | 9 | 11 => 30,
        2 => if is_leap_year(year as i64) {
            29
        } else {
            28
        },
        _ => 31,
    }
}

/// The era of four hundred years that a year lies in.
fn era_of(year: i64) -> (era: i64)
    requires
        -25_000_000_000_000_001 <= year <= 25_000_000_000_000_000,
    ensures
        era == year as int / 400,
        0 <= year - era * 400 < 400,
        -62_500_000_000_001 <= era <= 62_500_000_000_000,
{
    if year >= 0 {
        year / 400
    } else {
        (year - 399) / 400
    }
}

/// The days of a year before a date, where years start in March.
fn day_of_year(month: u32, day: u32) -> (days: i64)
    ensures
        days == (153 * (if month > 2 {
            month - 3
        } else {
            month + 9
        }) + 2) / 5 + day - 1,
        -1 <= days <= 200_000_000_000,
{
    let shifted_month = if month > 2 {
        month as i64 - 3
    } else {
        month as i64 + 9
    };
    (153 * shifted_month + 2) / 5 + day as i64 - 1
}

/// The days of an era before a year.
fn days_before_year_of_era(year_of_era: i64) -> (days: i64)
    requires
        0 <= year_of_era < 400,
    ensures
        days == year_of_era * 365 + year_of_era as int / 4 - year_of_era as int / 100,
        0 <= days <= 146_100,
{
    year_of_era * 365 + year_of_era / 4 - year_of_era / 100
}

/// Counts days by the calendar formula.
pub fn days_from_civil(year: i64, month: u32, day: u32) -> (days: i64)
    requires
        -25_000_000_000_000_000 <= year <= 25_000_000_000_000_000,
    ensures
        days == formula_days(year as int, month as int, day as int),
{
    let shifted = if month <= 2 {
        year - 1
    } else {
        year
    };
    let era = era_of(shifted);
    let before = days_before_year_of_era(shifted - era * 400);
    let within = day_of_year(month, day);
    era * 146_097 + (before + within) - 719_468
}

/// Reads decimal digits.
pub fn parse_digits(bytes: &[u8], start: usize, end: usize) -> (value: Option<u64>)
    requires
        start <= end <= bytes@.len(),
        end - start <= 9,
    ensures
        match value {
            Some(value) => digits_of(bytes@.subrange(start as int, end as int)) == Some(value as nat)
                && value < ten_to((end - start) as nat),
            None => digits_of(bytes@.subrange(start as int, end as int)) is None,
        },
{
    assert(bytes.len() == bytes@.len());
    let ghost digits = bytes@.subrange(start as int, end as int);
    let mut value: u64 = 0;
    let mut next: usize = start;
    proof {
        lemma_powers_of_ten();
    }
    while next < end
        invariant
            start <= next <= end <= bytes@.len(),
            bytes.len() == bytes@.len(),
            end - start <= 9,
            digits == bytes@.subrange(start as int, end as int),
            digits_of(digits.take(next - start)) == Some(value as nat),
            value < ten_to((next - start) as nat),
            ten_to(9) == 1_000_000_000,
        decreases end - next,
    {
        let ghost longer = digits.take(next + 1 - start);
        assert(longer.drop_last() =~= digits.take(next - start));
        assert(longer.last() == bytes@[next as int]);
        proof {
            lemma_digits_prefix(digits, next + 1 - start);
            lemma_ten_grows((next - start) as nat, 9);
        }
        let byte = bytes[next];
        if byte < 0x30 || byte > 0x39 {
            return None;
        }
        value = value * 10 + (byte - 0x30) as u64;
        next = next + 1;
    }
    assert(digits.take(next - start) =~= digits);
    Some(value)
}

proof fn lemma_powers_of_ten()
    ensures
        ten_to(0) == 1,
        ten_to(1) == 10,
        ten_to(2) == 100,
        ten_to(3) == 1_000,
        ten_to(4) == 10_000,
        ten_to(5) == 100_000,
        ten_to(6) == 1_000_000,
        ten_to(7) == 10_000_000,
        ten_to(8) == 100_000_000,
        ten_to(9) == 1_000_000_000,
{
    reveal_with_fuel(ten_to, 10);
}

proof fn lemma_ten_grows(small: nat, large: nat)
    requires
        small <= large,
    ensures
        ten_to(small) <= ten_to(large),
    decreases large,
{
    if small < large {
        lemma_ten_grows(small, (large - 1) as nat);
    }
}

/// Digits are numbers only where the first of them are.
proof fn lemma_digits_prefix(digits: Seq<u8>, count: int)
    requires
        0 <= count <= digits.len(),
    ensures
        digits_of(digits.take(count)) is None ==> digits_of(digits) is None,
    decreases digits.len(),
{
    if count < digits.len() {
        lemma_digits_prefix(digits.drop_last(), count);
        assert(digits.drop_last().take(count) =~= digits.take(count));
    } else {
        assert(digits.take(count) =~= digits);
    }
}

/// Nanoseconds of a fraction of a second, given as up to nine digits.
pub fn ascii_fraction_nanos(bytes: &[u8]) -> (nanos: Option<u64>)
    ensures
        match nanos {
            Some(nanos) => fraction_nanos(bytes@) == Some(nanos as nat) && nanos < 1_000_000_000,
            None => fraction_nanos(bytes@) is None,
        },
{
    assert(bytes.len() == bytes@.len());
    if bytes.len() == 0 || bytes.len() > 9 {
        return None;
    }
    assert(bytes@.subrange(0, bytes@.len() as int) =~= bytes@);
    match parse_digits(bytes, 0, bytes.len()) {
        None => None,
        Some(value) => {
            let mut nanos = value;
            let mut width: usize = bytes.len();
            let ghost wide = bytes@.len();
            proof {
                lemma_powers_of_ten();
                assert(ten_to((width - wide) as nat) == 1);
                assert(value * 1 == value);
            }
            while width < 9
                invariant
                    wide <= width <= 9,
                    nanos == value * ten_to((width - wide) as nat),
                    nanos < ten_to(width as nat),
                    ten_to(9) == 1_000_000_000,
                decreases 9 - width,
            {
                proof {
                    lemma_ten_grows(width as nat, 9);
                    let power = ten_to((width - wide) as nat);
                    assert(value * (10 * power) == 10 * (value * power)) by (nonlinear_arith);
                }
                nanos = nanos * 10;
                width = width + 1;
            }
            Some(nanos)
        },
    }
}

/// The number that eight leading decimal digits stand for.
pub fn eight_ascii_digits(bytes: &[u8]) -> (value: Option<u64>)
    ensures
        match value {
            Some(value) => bytes@.len() >= 8 && digits_of(bytes@.take(8)) == Some(value as nat),
            None => bytes@.len() < 8 || digits_of(bytes@.take(8)) is None,
        },
{
    assert(bytes.len() == bytes@.len());
    if bytes.len() < 8 {
        return None;
    }
    assert(bytes@.subrange(0, 8) =~= bytes@.take(8));
    parse_digits(bytes, 0, 8)
}

/// The date, time and fraction of a timestamp, where each is in its range.
fn civil_nanos(bytes: &[u8]) -> (nanos: Result<u64, TimestampFault>)
    requires
        bytes@.len() >= 19,
    ensures
        match nanos {
            Ok(nanos) => date_shape(bytes@) && (civil_fields(bytes@) matches Some(time)
                && time.in_range() && time.days() >= 0 && time.nanos() == nanos),
            Err(fault) => if !date_shape(bytes@) {
                fault == TimestampFault::Shape
            } else {
                match civil_fields(bytes@) {
                    None => fault == TimestampFault::NonDigit,
                    Some(time) => if !time.in_range() {
                        fault == TimestampFault::Range
                    } else if time.days() < 0 {
                        fault == TimestampFault::Epoch
                    } else {
                        time.nanos() > u64::MAX && fault == TimestampFault::Overflow
                    },
                }
            },
        },
{
    if bytes[4] != 0x2d || bytes[7] != 0x2d || bytes[10] != 0x54 || bytes[13] != 0x3a || bytes[16]
        != 0x3a {
        return Err(TimestampFault::Shape);
    }
    proof {
        lemma_powers_of_ten();
    }
    match (
        parse_digits(bytes, 0, 4),
        parse_digits(bytes, 5, 7),
        parse_digits(bytes, 8, 10),
        parse_digits(bytes, 11, 13),
        parse_digits(bytes, 14, 16),
        parse_digits(bytes, 17, 19),
    ) {
        (Some(year), Some(month), Some(day), Some(hour), Some(minute), Some(second)) => {
            if month < 1 || month > 12 || day == 0 || hour >= 24 || minute >= 60 || second >= 60
                || day > days_in_month(year, month) {
                return Err(TimestampFault::Range);
            }
            let days = days_from_civil(year as i64, month as u32, day as u32);
            proof {
                formula_counts_civil_days(year as int, month as int, day as int);
            }
            if days < 0 {
                return Err(TimestampFault::Epoch);
            }
            let seconds = days as u128 * 86_400 + hour as u128 * 3_600 + minute as u128 * 60
                + second as u128;
            let nanos = seconds * 1_000_000_000;
            if nanos > u64::MAX as u128 {
                return Err(TimestampFault::Overflow);
            }
            Ok(nanos as u64)
        },
        _ => Err(TimestampFault::NonDigit),
    }
}

/// The first second of a day that was parsed before.
#[derive(Debug, PartialEq, Eq)]
pub struct DockerTimestampPrefixCache {
    /// First nineteen bytes of the timestamp.
    pub prefix: Vec<u8>,
    /// Their nanoseconds.
    pub base_nanos: u64,
    /// Whether there is such a timestamp.
    pub initialized: bool,
}

impl DockerTimestampPrefixCache {
    /// An empty cache.
    pub fn new() -> (cache: Self)
        ensures
            !cache.initialized,
            cache.faithful(),
    {
        Self { prefix: Vec::new(), base_nanos: 0, initialized: false }
    }

    /// Whether the cached nanoseconds are those of the cached bytes.
    pub open spec fn faithful(&self) -> bool {
        self.initialized ==> prefix_nanos(self.prefix@) == Some(self.base_nanos as nat)
    }
}

/// Unix nanoseconds of a timestamp of twenty to thirty bytes.
pub open spec fn ascii_timestamp(bytes: Seq<u8>) -> Option<nat> {
    match timestamp_of(bytes) {
        Ok(nanos) => Some(nanos),
        Err(_) => None,
    }
}

/// Reads what follows the seconds of a timestamp.
fn zone_fraction(bytes: &[u8]) -> (fraction: Result<u64, TimestampFault>)
    requires
        bytes@.len() >= 19,
    ensures
        match fraction {
            Ok(nanos) => zone_nanos(bytes@.skip(19)) == Ok::<nat, TimestampFault>(nanos as nat)
                && nanos < 1_000_000_000,
            Err(fault) => zone_nanos(bytes@.skip(19)) == Err::<nat, TimestampFault>(fault),
        },
{
    assert(bytes.len() == bytes@.len());
    let length = bytes.len();
    let ghost rest = bytes@.skip(19);
    if length == 20 && bytes[19] == 0x5a {
        return Ok(0);
    }
    if length >= 22 && length <= 30 && bytes[19] == 0x2e && bytes[length - 1] == 0x5a {
        let digits = vstd::slice::slice_subrange(bytes, 20, length - 1);
        assert(digits@ =~= rest.subrange(1, rest.len() - 1));
        return match ascii_fraction_nanos(digits) {
            Some(nanos) => Ok(nanos),
            None => Err(TimestampFault::NonDigit),
        };
    }
    Err(TimestampFault::Zone)
}

/// The fields of a timestamp are those of its first nineteen bytes.
proof fn lemma_prefix_fields(bytes: Seq<u8>)
    requires
        bytes.len() >= 19,
    ensures
        date_shape(bytes.take(19)) == date_shape(bytes),
        civil_fields(bytes.take(19)) == civil_fields(bytes),
{
    let prefix = bytes.take(19);
    assert(prefix.subrange(0, 4) =~= bytes.subrange(0, 4));
    assert(prefix.subrange(5, 7) =~= bytes.subrange(5, 7));
    assert(prefix.subrange(8, 10) =~= bytes.subrange(8, 10));
    assert(prefix.subrange(11, 13) =~= bytes.subrange(11, 13));
    assert(prefix.subrange(14, 16) =~= bytes.subrange(14, 16));
    assert(prefix.subrange(17, 19) =~= bytes.subrange(17, 19));
}

/// Unix nanoseconds of a timestamp, remembering its whole second.
pub fn parse_ascii_docker_timestamp_cached(bytes: &[u8], cache: &mut DockerTimestampPrefixCache) -> (nanos:
    Option<u64>)
    requires
        old(cache).faithful(),
    ensures
        final(cache).faithful(),
        match nanos {
            Some(nanos) => ascii_timestamp(bytes@) == Some(nanos as nat) && final(cache).initialized
                && final(cache).prefix@ == bytes@.take(19),
            None => ascii_timestamp(bytes@) is None,
        },
{
    assert(bytes.len() == bytes@.len());
    if bytes.len() < 20 || bytes.len() > 30 {
        return None;
    }
    proof {
        lemma_prefix_fields(bytes@);
    }
    let fraction = match zone_fraction(bytes) {
        Ok(fraction) => fraction,
        Err(_) => {
            return None;
        },
    };
    let prefix = vstd::slice::slice_subrange(bytes, 0, 19);
    assert(prefix@ =~= bytes@.take(19));
    let base_nanos = if cache.initialized && same_bytes(cache.prefix.as_slice(), prefix) {
        cache.base_nanos
    } else {
        match civil_nanos(prefix) {
            Ok(base_nanos) => {
                cache.prefix = vstd::slice::slice_to_vec(prefix);
                cache.base_nanos = base_nanos;
                cache.initialized = true;
                base_nanos
            },
            Err(_) => {
                return None;
            },
        }
    };
    if base_nanos > u64::MAX - fraction {
        return None;
    }
    Some(base_nanos + fraction)
}

/// Unix nanoseconds of a timestamp.
pub fn parse_ascii_docker_timestamp(bytes: &[u8]) -> (nanos: Option<u64>)
    ensures
        match nanos {
            Some(nanos) => ascii_timestamp(bytes@) == Some(nanos as nat),
            None => ascii_timestamp(bytes@) is None,
        },
{
    let mut cache = DockerTimestampPrefixCache::new();
    parse_ascii_docker_timestamp_cached(bytes, &mut cache)
}

/// What is said of text that is not a timestamp.
pub open spec fn timestamp_complaint(input: Seq<char>, fault: TimestampFault) -> Seq<char> {
    match fault {
        TimestampFault::Shape => "unsupported Docker timestamp: "@ + input,
        TimestampFault::NonDigit => "timestamp contains a non-digit"@,
        TimestampFault::Range => "invalid Docker timestamp: "@ + input,
        TimestampFault::Zone => "unsupported Docker timestamp timezone: "@ + input,
        TimestampFault::Epoch => "timestamp predates Unix epoch: "@ + input,
        TimestampFault::Overflow => "timestamp nanoseconds overflow"@,
    }
}

/// Says what is wrong with a timestamp.
fn complain(input: &str, fault: TimestampFault) -> (complaint: String)
    ensures
        complaint@ == timestamp_complaint(input@, fault),
{
    match fault {
        TimestampFault::NonDigit => "timestamp contains a non-digit".to_owned(),
        TimestampFault::Overflow => "timestamp nanoseconds overflow".to_owned(),
        _ => {
            let mut complaint = match fault {
                TimestampFault::Shape => "unsupported Docker timestamp: ",
                TimestampFault::Range => "invalid Docker timestamp: ",
                TimestampFault::Zone => "unsupported Docker timestamp timezone: ",
                _ => "timestamp predates Unix epoch: ",
            }.to_owned();
            complaint.append(input);
            complaint
        },
    }
}

/// Unix nanoseconds of a timestamp, or what is wrong with it.
pub fn parse_docker_timestamp(input: &str) -> (nanos: Result<u64, String>)
    ensures
        match nanos {
            Ok(nanos) => timestamp_of(vstd::utf8::encode_utf8(input@)) == Ok::<nat, TimestampFault>(
                nanos as nat,
            ),
            Err(complaint) => match timestamp_of(vstd::utf8::encode_utf8(input@)) {
                Ok(_) => false,
                Err(fault) => complaint@ == timestamp_complaint(input@, fault),
            },
        },
{
    let bytes = input.as_bytes();
    assert(bytes.len() == bytes@.len());
    if bytes.len() < 20 {
        return Err(complain(input, TimestampFault::Shape));
    }
    match civil_nanos(bytes) {
        Ok(base) => match zone_fraction(bytes) {
            Ok(fraction) => if base > u64::MAX - fraction {
                Err(complain(input, TimestampFault::Overflow))
            } else {
                Ok(base + fraction)
            },
            Err(fault) => Err(complain(input, fault)),
        },
        Err(fault) => {
            if fault == TimestampFault::Epoch || fault == TimestampFault::Overflow {
                // The zone is looked at before the range of the whole.
                if let Err(earlier) = zone_fraction(bytes) {
                    return Err(complain(input, earlier));
                }
            }
            Err(complain(input, fault))
        },
    }
}

} // verus!
