//! What ranks and percentiles cover.

use vstd::prelude::*;

use crate::latency::{rank_place, sorted, spread_place};

verus! {

/// The sample with a rank is the first at which the samples up to it are the wanted
/// fraction of all.
pub proof fn ranks_cover_their_fraction(length: nat, numerator: nat, denominator: nat)
    requires
        0 < numerator <= denominator,
        length > 0,
        length * numerator <= usize::MAX,
    ensures
        0 <= rank_place(length, numerator, denominator) < length,
        (rank_place(length, numerator, denominator) + 1) * denominator >= length * numerator,
        rank_place(length, numerator, denominator) * denominator < length * numerator,
{
    let wanted = (length * numerator) as int;
    let d = denominator as int;
    let rank = (wanted + d - 1) / d;
    assert(wanted > 0) by (nonlinear_arith)
        requires
            wanted == length * numerator,
            length > 0,
            numerator > 0,
    ;
    assert(rank * d >= wanted && (rank - 1) * d < wanted && rank >= 1) by (nonlinear_arith)
        requires
            rank == (wanted + d - 1) / d,
            d > 0,
            wanted > 0,
    ;
    assert(wanted <= length * d) by (nonlinear_arith)
        requires
            wanted == length * numerator,
            numerator <= d,
    ;
    assert(rank <= length) by (nonlinear_arith)
        requires
            (rank - 1) * d < wanted,
            wanted <= length * d,
            d > 0,
    ;
    assert(rank_place(length, numerator, denominator) == rank - 1);
}

/// The whole is covered by the last sample alone; ranks that name nothing stand at
/// the first, and those beyond the whole at the last.
pub proof fn ranks_stay_among_the_samples(length: nat, numerator: nat, denominator: nat)
    requires
        length > 0,
        denominator > 0,
        length * numerator <= usize::MAX,
    ensures
        numerator == 0 ==> rank_place(length, numerator, denominator) == 0,
        numerator >= denominator ==> rank_place(length, numerator, denominator) == length - 1,
{
    let wanted = (length * numerator) as int;
    let d = denominator as int;
    let rank = (wanted + d - 1) / d;
    if numerator == 0 {
        assert(rank == 0) by (nonlinear_arith)
            requires
                rank == (wanted + d - 1) / d,
                wanted == length * numerator,
                numerator == 0,
                d > 0,
        ;
    }
    if numerator >= denominator {
        assert(rank >= length) by (nonlinear_arith)
            requires
                rank == (wanted + d - 1) / d,
                wanted == length * numerator,
                numerator >= d,
                d > 0,
        ;
    }
}

/// The sample at a percentile is the last that leaves at most the wanted part of the
/// way from the first sample to the last behind it; the first and the last sample
/// stand at the ends.
pub proof fn percentiles_spread_over_the_samples(length: nat, percentile: nat)
    requires
        length > 0,
        percentile <= 100,
        (length - 1) * percentile <= usize::MAX,
    ensures
        spread_place(length, percentile) < length,
        spread_place(length, percentile) * 100 <= (length - 1) * percentile,
        (length - 1) * percentile < (spread_place(length, percentile) + 1) * 100,
        percentile == 0 ==> spread_place(length, percentile) == 0,
        percentile == 100 ==> spread_place(length, percentile) == length - 1,
{
    let product = (length - 1) * percentile;
    assert(0 <= product <= (length - 1) * 100) by (nonlinear_arith)
        requires
            product == (length - 1) * percentile,
            0 <= percentile <= 100,
            length > 0,
    ;
    if percentile == 0 {
        assert(product == 0) by (nonlinear_arith)
            requires
                product == (length - 1) * percentile,
                percentile == 0,
        ;
    }
    if percentile == 100 {
        assert(product == (length - 1) * 100);
    }
}

/// No smaller part of sorted samples than the wanted fraction stays at or below the
/// sample with a rank.
pub proof fn ranked_samples_bound_their_fraction(
    samples: Seq<u64>,
    numerator: nat,
    denominator: nat,
    earlier: int,
)
    requires
        sorted(samples),
        samples.len() > 0,
        0 < numerator <= denominator,
        samples.len() * numerator <= usize::MAX,
        0 <= earlier < samples.len(),
    ensures
        earlier * denominator < samples.len() * numerator ==> samples[earlier]
            <= samples[rank_place(samples.len(), numerator, denominator)],
        (earlier + 1) * denominator >= samples.len() * numerator ==> samples[earlier]
            >= samples[rank_place(samples.len(), numerator, denominator)],
{
    ranks_cover_their_fraction(samples.len(), numerator, denominator);
    let place = rank_place(samples.len(), numerator, denominator);
    let wanted = samples.len() * numerator;
    let d = denominator as int;
    if earlier * denominator < wanted {
        assert(earlier <= place) by (nonlinear_arith)
            requires
                earlier * d < wanted,
                (place + 1) * d >= wanted,
                d > 0,
        ;
    }
    if (earlier + 1) * denominator >= wanted {
        assert(earlier >= place) by (nonlinear_arith)
            requires
                (earlier + 1) * d >= wanted,
                place * d < wanted,
                d > 0,
        ;
    }
}

} // verus!
