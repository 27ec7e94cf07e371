//! Latency samples and their percentiles.

use vstd::prelude::*;

verus! {

/// Whether samples stand in rising order.
pub open spec fn sorted(samples: Seq<u64>) -> bool {
    forall|i: int, j: int| 0 <= i <= j < samples.len() ==> samples[i] <= samples[j]
}

/// Calls `sort_unstable` on the samples: the same samples, in rising order.
#[verifier::external_body]
pub(crate) fn sort_numbers(samples: &mut Vec<u64>)
    ensures
        sorted(final(samples)@),
        final(samples)@.to_multiset() == old(samples)@.to_multiset(),
{
    samples.sort_unstable();
}

/// Sorts samples.
pub fn sort_samples(samples: Vec<u64>) -> (result: Vec<u64>)
    ensures
        sorted(result@),
        result@.to_multiset() == samples@.to_multiset(),
{
    let mut result = samples;
    sort_numbers(&mut result);
    result
}

/// The place of a percentile between the first sample and the last.
pub open spec fn spread_place(length: nat, percentile: nat) -> nat {
    let product = (length - 1) * percentile;
    (if product > usize::MAX {
        usize::MAX as int
    } else {
        product
    } / 100) as nat
}

/// The place of the sample with a rank: the least that covers the fraction.
pub open spec fn rank_place(length: nat, numerator: nat, denominator: nat) -> int {
    let product = if length * numerator > usize::MAX {
        usize::MAX as int
    } else {
        (length * numerator) as int
    };
    let rank = (product + denominator - 1) / denominator as int;
    if rank <= 0 {
        0
    } else if rank > length {
        length - 1
    } else {
        rank - 1
    }
}

/// The sample at a percentile between the first and the last; zero of none.
pub fn percentile(samples: &Vec<u64>, hundredths: usize) -> (sample: u64)
    requires
        hundredths <= 100,
    ensures
        samples@.len() == 0 ==> sample == 0,
        samples@.len() > 0 ==> sample == samples@[spread_place(
            samples@.len(),
            hundredths as nat,
        ) as int],
{
    if samples.len() == 0 {
        return 0;
    }
    let last = samples.len() - 1;
    assert(last as int * hundredths as int <= u64::MAX as int * 100) by (nonlinear_arith)
        requires
            0 <= hundredths <= 100,
            0 <= last <= u64::MAX,
    ;
    let product = last as u128 * hundredths as u128;
    assert(last as int * hundredths as int <= last as int * 100) by (nonlinear_arith)
        requires
            0 <= hundredths <= 100,
            0 <= last,
    ;
    assert(last as u128 * hundredths as u128 == (samples@.len() - 1) * hundredths);
    let whole = if product > usize::MAX as u128 {
        usize::MAX
    } else {
        product as usize
    };
    samples[whole / 100]
}

/// The sample with a rank.
pub fn ranked(samples: &Vec<u64>, numerator: usize, denominator: usize) -> (sample: u64)
    requires
        samples@.len() > 0,
        denominator > 0,
    ensures
        sample == samples@[rank_place(samples@.len(), numerator as nat, denominator as nat)],
{
    let length = samples.len();
    assert(length as int * numerator as int <= u64::MAX as int * u64::MAX as int)
        by (nonlinear_arith)
        requires
            0 <= length <= u64::MAX,
            0 <= numerator <= u64::MAX,
    ;
    let product = length as u128 * numerator as u128;
    assert(length as u128 * numerator as u128 == length as nat * numerator as nat);
    let whole = if product > usize::MAX as u128 {
        usize::MAX as u128
    } else {
        product
    };
    let rank = (whole + (denominator as u128 - 1)) / denominator as u128;
    let place = if rank == 0 {
        0
    } else if rank > length as u128 {
        length - 1
    } else {
        (rank - 1) as usize
    };
    samples[place]
}

/// The middle sample.
pub fn median(samples: &Vec<u64>) -> (sample: u64)
    requires
        samples@.len() > 0,
    ensures
        sample == samples@[samples@.len() as int / 2],
{
    samples[samples.len() / 2]
}

/// The sample that ninety-nine in a hundred do not exceed.
pub fn tail(samples: &Vec<u64>) -> (sample: u64)
    requires
        0 < samples@.len() * 99 <= usize::MAX,
    ensures
        sample == samples@[samples@.len() as int * 99 / 100],
{
    samples[samples.len() * 99 / 100]
}

/// A higher rank of sorted samples is no smaller.
pub proof fn ranks_rise(samples: Seq<u64>, lower: nat, higher: nat, denominator: nat)
    requires
        sorted(samples),
        samples.len() > 0,
        lower <= higher,
        denominator > 0,
    ensures
        samples[rank_place(samples.len(), lower, denominator)] <= samples[rank_place(
            samples.len(),
            higher,
            denominator,
        )],
{
    let length = samples.len();
    assert(length * lower <= length * higher) by (nonlinear_arith)
        requires
            lower <= higher,
    ;
    let small = if length * lower > usize::MAX {
        usize::MAX as int
    } else {
        (length * lower) as int
    };
    let large = if length * higher > usize::MAX {
        usize::MAX as int
    } else {
        (length * higher) as int
    };
    assert(0 <= small) by (nonlinear_arith)
        requires
            small == if length * lower > usize::MAX {
                usize::MAX as int
            } else {
                (length * lower) as int
            },
    ;
    assert((small + denominator - 1) / denominator as int <= (large + denominator - 1)
        / denominator as int) by (nonlinear_arith)
        requires
            0 <= small <= large,
            denominator > 0,
    ;
    assert(rank_place(length, lower, denominator) <= rank_place(length, higher, denominator));
}

} // verus!
