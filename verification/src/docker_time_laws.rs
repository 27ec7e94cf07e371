//! Docker timestamps written and read back, and the calendar behind them.

use vstd::prelude::*;

use crate::docker_time::{
    civil_days, civil_fields, date_shape, days_before_month, digits_of, fraction_nanos, leap,
    month_days, ten_to, timestamp_of, years_follow_each_other, zone_nanos, CivilTime,
    TimestampFault,
};

verus! {

/// A number in so many decimal digits.
pub open spec fn written(value: nat, width: nat) -> Seq<u8>
    decreases width,
{
    if width == 0 {
        Seq::empty()
    } else {
        written(value / 10, (width - 1) as nat).push((0x30 + value % 10) as u8)
    }
}

/// A date and time, to the second.
pub open spec fn written_seconds(time: CivilTime) -> Seq<u8> {
    written(time.year, 4) + seq![0x2du8] + written(time.month, 2) + seq![0x2du8] + written(
        time.day,
        2,
    ) + seq![0x54u8] + written(time.hour, 2) + seq![0x3au8] + written(time.minute, 2) + seq![
        0x3au8,
    ] + written(time.second, 2)
}

/// A timestamp in UTC whose fraction of a second has so many digits, none standing
/// for a whole second.
pub open spec fn written_time(time: CivilTime, fraction: nat, width: nat) -> Seq<u8> {
    if width == 0 {
        written_seconds(time) + seq![0x5au8]
    } else {
        written_seconds(time) + (seq![0x2eu8] + written(fraction, width) + seq![0x5au8])
    }
}

proof fn lemma_written(value: nat, width: nat)
    ensures
        written(value, width).len() == width,
        value < ten_to(width) ==> digits_of(written(value, width)) == Some(value),
        forall|i: int|
            0 <= i < width ==> 0x30 <= #[trigger] written(value, width)[i] <= 0x39,
    decreases width,
{
    if width > 0 {
        let narrower = (width - 1) as nat;
        lemma_written(value / 10, narrower);
        assert(written(value, width).drop_last() =~= written(value / 10, narrower));
    }
}

proof fn lemma_tens()
    ensures
        ten_to(1) == 10,
        ten_to(2) == 100,
        ten_to(4) == 10_000,
{
    reveal_with_fuel(ten_to, 5);
}

/// Where the fields of a written timestamp stand.
pub proof fn written_fields_stand_apart(time: CivilTime, rest: Seq<u8>)
    requires
        time.year < 10_000,
        time.month < 100,
        time.day < 100,
        time.hour < 100,
        time.minute < 100,
        time.second < 100,
    ensures
        written_seconds(time).len() == 19,
        date_shape(written_seconds(time) + rest),
        civil_fields(written_seconds(time) + rest) == Some(time),
        (written_seconds(time) + rest).skip(19) == rest,
        forall|i: int|
            0 <= i < 10 ==> (#[trigger] written_seconds(time)[i]) == 0x2d || 0x30
                <= written_seconds(time)[i] <= 0x39,
        written_seconds(time)[10] == 0x54,
{
    let all = written_seconds(time) + rest;
    lemma_tens();
    lemma_written(time.year, 4);
    lemma_written(time.month, 2);
    lemma_written(time.day, 2);
    lemma_written(time.hour, 2);
    lemma_written(time.minute, 2);
    lemma_written(time.second, 2);
    assert(all.subrange(0, 4) =~= written(time.year, 4));
    assert(all.subrange(5, 7) =~= written(time.month, 2));
    assert(all.subrange(8, 10) =~= written(time.day, 2));
    assert(all.subrange(11, 13) =~= written(time.hour, 2));
    assert(all.subrange(14, 16) =~= written(time.minute, 2));
    assert(all.subrange(17, 19) =~= written(time.second, 2));
    assert(all.skip(19) =~= rest);
    let seconds = written_seconds(time);
    assert forall|i: int| 0 <= i < 10 implies (#[trigger] seconds[i]) == 0x2d || 0x30 <= seconds[i]
        <= 0x39 by {
        if i < 4 {
            assert(seconds[i] == written(time.year, 4)[i]);
        } else if 5 <= i < 7 {
            assert(seconds[i] == written(time.month, 2)[i - 5]);
        } else if 8 <= i {
            assert(seconds[i] == written(time.day, 2)[i - 8]);
        }
    }
}

/// A timestamp from the epoch on is read as the nanoseconds of its day, of its time
/// of day and of its fraction, in however many digits that is written.
pub proof fn timestamps_read_back(time: CivilTime, fraction: nat, width: nat)
    requires
        time.year < 10_000,
        time.in_range(),
        time.days() >= 0,
        width <= 9,
        fraction < ten_to(width),
        time.nanos() + 1_000_000_000 <= u64::MAX,
    ensures
        timestamp_of(written_time(time, fraction, width)) == Ok::<nat, TimestampFault>(
            ((civil_days(time.year as int, time.month as int, time.day as int) * 86_400
                + time.hour * 3_600 + time.minute * 60 + time.second) * 1_000_000_000 + fraction
                * ten_to((9 - width) as nat)) as nat,
        ),
        fraction * ten_to((9 - width) as nat) < 1_000_000_000,
{
    let rest = if width == 0 {
        seq![0x5au8]
    } else {
        seq![0x2eu8] + written(fraction, width) + seq![0x5au8]
    };
    written_fields_stand_apart(time, rest);
    lemma_written(fraction, width);
    lemma_scaled(fraction, width);
    if width > 0 {
        assert(rest.subrange(1, rest.len() - 1) =~= written(fraction, width));
        assert(rest.last() == 0x5a);
        assert(fraction_nanos(written(fraction, width)) == Some(
            fraction * ten_to((9 - width) as nat),
        ));
    } else {
        assert(fraction == 0) by {
            assert(ten_to(0) == 1);
        }
        assert(fraction * ten_to(9) == 0) by (nonlinear_arith)
            requires
                fraction == 0,
        ;
    }
}

proof fn lemma_tens_multiply(left: nat, right: nat)
    ensures
        ten_to(left) * ten_to(right) == ten_to(left + right),
        ten_to(right) > 0,
    decreases left,
{
    if left > 0 {
        let less = (left - 1) as nat;
        lemma_tens_multiply(less, right);
        let (a, b) = (ten_to(less), ten_to(right));
        assert((10 * a) * b == 10 * (a * b)) by (nonlinear_arith);
        assert((left + right - 1) as nat == less + right);
        assert(ten_to(left + right) == 10 * ten_to(less + right));
    } else {
        lemma_ten_positive(right);
        assert(ten_to(left) == 1);
        assert(1 * ten_to(right) == ten_to(right));
    }
}

proof fn lemma_ten_positive(exponent: nat)
    ensures
        ten_to(exponent) > 0,
    decreases exponent,
{
    if exponent > 0 {
        lemma_ten_positive((exponent - 1) as nat);
    }
}

proof fn lemma_scaled(fraction: nat, width: nat)
    requires
        width <= 9,
        fraction < ten_to(width),
    ensures
        fraction * ten_to((9 - width) as nat) < 1_000_000_000,
{
    let (whole, scale) = (ten_to(width), ten_to((9 - width) as nat));
    lemma_tens_multiply(width, (9 - width) as nat);
    assert(ten_to(9) == 1_000_000_000) by {
        reveal_with_fuel(ten_to, 10);
    }
    assert(fraction * scale < whole * scale) by (nonlinear_arith)
        requires
            fraction < whole,
            scale > 0,
    ;
}

/// The same time written with more digits, the added ones zeros, is the same time.
pub proof fn added_zeros_change_nothing(time: CivilTime, fraction: nat, width: nat)
    requires
        time.year < 10_000,
        time.in_range(),
        time.days() >= 0,
        0 < width < 9,
        fraction < ten_to(width),
        time.nanos() + 1_000_000_000 <= u64::MAX,
    ensures
        timestamp_of(written_time(time, fraction * 10, width + 1)) == timestamp_of(
            written_time(time, fraction, width),
        ),
{
    assert(ten_to(width + 1) == 10 * ten_to(width));
    timestamps_read_back(time, fraction, width);
    timestamps_read_back(time, fraction * 10, width + 1);
    let scale = ten_to((9 - (width + 1)) as nat);
    assert(ten_to((9 - width) as nat) == 10 * scale);
    assert(fraction * 10 * scale == fraction * (10 * scale)) by (nonlinear_arith);
}

/// A time with a field out of its range is refused.
pub proof fn impossible_times_are_refused(time: CivilTime, fraction: nat, width: nat)
    requires
        time.year < 10_000,
        time.month < 100,
        time.day < 100,
        time.hour < 100,
        time.minute < 100,
        time.second < 100,
        time.month == 0 || time.month > 12 || time.day == 0 || time.day > month_days(
            time.year as int,
            time.month as int,
        ) || time.hour >= 24 || time.minute >= 60 || time.second >= 60,
    ensures
        timestamp_of(written_time(time, fraction, width)) is Err,
{
    let rest = if width == 0 {
        seq![0x5au8]
    } else {
        seq![0x2eu8] + written(fraction, width) + seq![0x5au8]
    };
    written_fields_stand_apart(time, rest);
}

/// A time that ends in anything but `Z` is refused.
pub proof fn other_zones_are_refused(bytes: Seq<u8>)
    requires
        bytes.len() > 0,
        bytes.last() != 0x5a,
    ensures
        timestamp_of(bytes) is Err,
{
    if bytes.len() >= 20 {
        assert(bytes.skip(19).last() == bytes.last());
        assert(zone_nanos(bytes.skip(19)) is Err);
    }
}

/// The epoch is the first of January 1970, and every day lies one after the day
/// before it: within a month, from the last day of a month to the first of the
/// next, and from the last of December to the first of January.
pub proof fn days_follow_each_other(year: int, month: int, day: int)
    requires
        1 <= month <= 12,
    ensures
        civil_days(1970, 1, 1) == 0,
        civil_days(year, month, day + 1) == civil_days(year, month, day) + 1,
        month < 12 ==> civil_days(year, month + 1, 1) == civil_days(
            year,
            month,
            month_days(year, month),
        ) + 1,
        civil_days(year + 1, 1, 1) == civil_days(year, 12, 31) + 1,
{
    reveal_with_fuel(days_before_month, 13);
    years_follow_each_other(year);
}

/// How long the months are: thirty days have the fourth, the sixth, the ninth and
/// the eleventh; the second has twenty-nine every fourth year, but for the hundreds
/// that four hundred does not divide, and twenty-eight otherwise; the others have
/// thirty-one.
pub proof fn months_have_their_days(year: int)
    ensures
        month_days(year, 1) == 31 && month_days(year, 3) == 31 && month_days(year, 4) == 30,
        month_days(year, 5) == 31 && month_days(year, 6) == 30 && month_days(year, 7) == 31,
        month_days(year, 8) == 31 && month_days(year, 9) == 30 && month_days(year, 10) == 31,
        month_days(year, 11) == 30 && month_days(year, 12) == 31,
        month_days(year, 2) == 29 <==> leap(year),
        month_days(year, 2) == 28 <==> !leap(year),
        leap(400 * year) && !leap(400 * year + 100) && !leap(400 * year + 200) && !leap(
            400 * year + 300,
        ),
        year % 100 != 0 ==> (leap(year) <==> year % 4 == 0),
        !leap(4 * year + 1) && !leap(4 * year + 2) && !leap(4 * year + 3),
{
    assert((400 * year) % 400 == 0 && (400 * year) % 4 == 0) by (nonlinear_arith);
    assert((400 * year + 100) % 400 == 100 && (400 * year + 100) % 100 == 0)
        by (nonlinear_arith);
    assert((400 * year + 200) % 400 == 200 && (400 * year + 200) % 100 == 0)
        by (nonlinear_arith);
    assert((400 * year + 300) % 400 == 300 && (400 * year + 300) % 100 == 0)
        by (nonlinear_arith);
}

} // verus!
