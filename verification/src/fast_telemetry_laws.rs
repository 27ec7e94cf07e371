//! What exported points keep of the readings that they show.

use vstd::prelude::*;

use crate::fast_telemetry::{
    bucket_differences, buckets_are_sorted, distribution_shows, export_after, exports_are_bounded,
    histogram_shows, sorted_buckets, spans_indexes, spans_name_the_buckets, DistributionReading,
    FastTelemetryConfig, HistogramReading, MetricReading, MetricSnapshot, SparseBucket,
};
use crate::records::{
    ExplicitHistogramValue, ExponentialHistogramValue, HistogramCount, MetricKind, MetricValue,
    NumberValue,
};

verus! {

/// The sum of integer counts.
pub open spec fn counts_sum(counts: Seq<HistogramCount>) -> int
    decreases counts.len(),
{
    if counts.len() == 0 {
        0
    } else {
        counts_sum(counts.drop_last()) + (match counts.last() {
            HistogramCount::Integer(count) => count as int,
            HistogramCount::DoubleBits(_) => 0,
        })
    }
}

/// Whether cumulative counts never fall and end at or below the count of all
/// observations.
pub open spec fn accumulates(reading: HistogramReading) -> bool {
    &&& forall|i: int, j: int|
        0 <= i <= j < reading.buckets@.len() ==> (
        #[trigger] reading.buckets@[i]).cumulative_count <= (
        #[trigger] reading.buckets@[j]).cumulative_count
    &&& forall|i: int|
        0 <= i < reading.buckets@.len() ==> (#[trigger] reading.buckets@[i]).cumulative_count
            <= reading.count
}

proof fn lemma_prefix_sums(reading: HistogramReading, taken: int)
    requires
        accumulates(reading),
        0 <= taken <= reading.buckets@.len(),
    ensures
        counts_sum(bucket_differences(reading.buckets@, reading.count).take(taken)) == (if taken
            == 0 {
            0
        } else {
            reading.buckets@[taken - 1].cumulative_count as int
        }),
    decreases taken,
{
    let counts = bucket_differences(reading.buckets@, reading.count);
    let prefix = counts.take(taken);
    if taken > 0 {
        lemma_prefix_sums(reading, taken - 1);
        assert(prefix.drop_last() =~= counts.take(taken - 1));
        assert(prefix.last() == counts[taken - 1]);
        let before = reading.buckets@.take(taken - 1);
        if taken > 1 {
            assert(before.last() == reading.buckets@[taken - 2]);
            assert(reading.buckets@[taken - 2].cumulative_count
                <= reading.buckets@[taken - 1].cumulative_count);
        }
    }
}

/// The exported buckets of a histogram whose cumulative counts never fall add up
/// to its count, and those up to a bound add up to the cumulative count of that
/// bound. There is one bucket more than there are bounds, and the bounds are those
/// that were read, in order.
pub proof fn histogram_buckets_add_up(value: ExplicitHistogramValue, reading: HistogramReading)
    requires
        histogram_shows(value, reading),
        accumulates(reading),
    ensures
        value.count == HistogramCount::Integer(reading.count),
        value.sum_bits == Some(reading.sum_bits),
        counts_sum(value.bucket_counts@) == reading.count,
        forall|k: int|
            0 <= k < reading.buckets@.len() ==> counts_sum(
                #[trigger] value.bucket_counts@.take(k + 1),
            ) == reading.buckets@[k].cumulative_count,
        value.explicit_bounds_bits@.len() == reading.buckets@.len(),
        value.bucket_counts@.len() == reading.buckets@.len() + 1,
        forall|k: int|
            0 <= k < reading.buckets@.len() ==> #[trigger] value.explicit_bounds_bits@[k]
                == reading.buckets@[k].bound_bits,
        forall|k: int|
            0 <= k < value.bucket_counts@.len() ==> #[trigger] value.bucket_counts@[k] is Integer,
{
    let counts = bucket_differences(reading.buckets@, reading.count);
    let buckets = reading.buckets@;
    assert forall|k: int| 0 <= k < buckets.len() implies counts_sum(
        #[trigger] value.bucket_counts@.take(k + 1),
    ) == buckets[k].cumulative_count by {
        lemma_prefix_sums(reading, k + 1);
    }
    lemma_prefix_sums(reading, buckets.len() as int);
    assert(counts.drop_last() =~= counts.take(buckets.len() as int));
    assert(counts.last() == counts[buckets.len() as int]);
    if buckets.len() > 0 {
        assert(buckets[buckets.len() - 1].cumulative_count <= reading.count);
    }
}

/// A bucket whose cumulative count fell below that of the bound before it is
/// exported as empty.
pub proof fn falling_buckets_are_empty(
    value: ExplicitHistogramValue,
    reading: HistogramReading,
    bucket: int,
)
    requires
        histogram_shows(value, reading),
        0 < bucket < reading.buckets@.len(),
        reading.buckets@[bucket].cumulative_count < reading.buckets@[bucket - 1].cumulative_count,
    ensures
        value.bucket_counts@[bucket] == HistogramCount::Integer(0),
{
    assert(reading.buckets@.take(bucket).last() == reading.buckets@[bucket - 1]);
}

/// Whether the indexes of buckets differ and lie close enough for spans.
pub open spec fn spannable(buckets: Seq<SparseBucket>) -> bool {
    &&& buckets.len() <= u32::MAX
    &&& forall|i: int, j: int|
        0 <= i < buckets.len() && 0 <= j < buckets.len() && i != j ==> (
        #[trigger] buckets[i]).index != (#[trigger] buckets[j]).index && buckets[i].index
            - buckets[j].index <= i32::MAX
}

proof fn lemma_sorted_members(buckets: Seq<SparseBucket>, bucket: SparseBucket)
    ensures
        sorted_buckets(buckets).contains(bucket) <==> buckets.contains(bucket),
{
    broadcast use vstd::seq_lib::group_to_multiset_ensures;

    buckets_are_sorted(buckets);
    assert(sorted_buckets(buckets).to_multiset().count(bucket) > 0 <==> sorted_buckets(
        buckets,
    ).contains(bucket));
    assert(buckets.to_multiset().count(bucket) > 0 <==> buckets.contains(bucket));
}

proof fn lemma_sorted_distinct(buckets: Seq<SparseBucket>)
    requires
        spannable(buckets),
    ensures
        forall|i: int|
            0 < i < sorted_buckets(buckets).len() ==> 0 <= (
            #[trigger] sorted_buckets(buckets)[i]).index - (sorted_buckets(buckets)[i - 1].index
                + 1) <= i32::MAX,
{
    broadcast use vstd::seq_lib::group_to_multiset_ensures;

    let sorted = sorted_buckets(buckets);
    buckets_are_sorted(buckets);
    assert(buckets.no_duplicates());
    buckets.lemma_multiset_has_no_duplicates();
    sorted.lemma_multiset_has_no_duplicates_conv();
    assert forall|i: int| 0 < i < sorted.len() implies 0 <= (#[trigger] sorted[i]).index - (
    sorted[i - 1].index + 1) <= i32::MAX by {
        lemma_sorted_members(buckets, sorted[i]);
        lemma_sorted_members(buckets, sorted[i - 1]);
        assert(sorted.contains(sorted[i]) && sorted.contains(sorted[i - 1]));
        let a = choose|a: int| 0 <= a < buckets.len() && buckets[a] == sorted[i];
        let b = choose|b: int| 0 <= b < buckets.len() && buckets[b] == sorted[i - 1];
        assert(sorted[i] != sorted[i - 1]);
        assert(a != b);
        assert(buckets[a].index != buckets[b].index && buckets[a].index - buckets[b].index
            <= i32::MAX);
        assert(sorted[i - 1].index <= sorted[i].index);
    }
}

/// The buckets of a distribution stand, in the order of their indexes, in what is
/// exported: the runs name their indexes and the counts beside them are theirs.
/// The counts, the extremes and the sum are those that were read.
pub proof fn distributions_keep_their_buckets(
    value: ExponentialHistogramValue,
    reading: DistributionReading,
    bucket: int,
)
    requires
        distribution_shows(value, reading),
        spannable(reading.positive@),
        0 <= bucket < reading.positive@.len(),
    ensures
        value.count == HistogramCount::Integer(reading.count),
        value.zero_count == HistogramCount::Integer(reading.zero_count),
        value.sum_bits == Some(reading.sum_bits),
        value.min_bits == reading.min_bits,
        value.max_bits == reading.max_bits,
        value.negative is None,
        value.scale == 0,
        value.positive matches Some(positive) && positive.bucket_counts@.len()
            == reading.positive@.len() && spans_indexes(positive.spans@).len()
            == reading.positive@.len() && exists|k: int|
            0 <= k < positive.bucket_counts@.len() && spans_indexes(positive.spans@)[k]
                == reading.positive@[bucket].index && #[trigger] positive.bucket_counts@[k]
                == HistogramCount::Integer(reading.positive@[bucket].count),
{
    let sorted = sorted_buckets(reading.positive@);
    buckets_are_sorted(reading.positive@);
    lemma_sorted_distinct(reading.positive@);
    spans_name_the_buckets(sorted);
    let wanted = reading.positive@[bucket];
    lemma_sorted_members(reading.positive@, wanted);
    assert(reading.positive@.contains(wanted));
    let k = choose|k: int| 0 <= k < sorted.len() && sorted[k] == wanted;
    let positive = value.positive->0;
    assert(positive.bucket_counts@[k] == HistogramCount::Integer(wanted.count));
    assert(spans_indexes(positive.spans@)[k] == wanted.index);
}

/// The exported indexes of a distribution rise, and nothing is exported of one
/// without positive buckets.
pub proof fn distribution_indexes_rise(
    value: ExponentialHistogramValue,
    reading: DistributionReading,
)
    requires
        distribution_shows(value, reading),
        spannable(reading.positive@),
    ensures
        value.positive is None <==> reading.positive@.len() == 0,
        value.positive matches Some(positive) ==> forall|i: int, j: int|
            0 <= i < j < spans_indexes(positive.spans@).len() ==> #[trigger] spans_indexes(
                positive.spans@,
            )[i] < #[trigger] spans_indexes(positive.spans@)[j],
{
    let sorted = sorted_buckets(reading.positive@);
    buckets_are_sorted(reading.positive@);
    lemma_sorted_distinct(reading.positive@);
    spans_name_the_buckets(sorted);
    if let Some(positive) = value.positive {
        let indexes = spans_indexes(positive.spans@);
        assert forall|i: int, j: int| 0 <= i < j < indexes.len() implies #[trigger] indexes[i]
            < #[trigger] indexes[j] by {
            assert(sorted[j].index - (sorted[j - 1].index + 1) >= 0);
            assert(sorted[i].index <= sorted[j - 1].index);
        }
    }
}

/// A counter is exported as a cumulative, monotonic sum, a gauge as a gauge, each
/// with the number that was read; histograms and distributions are cumulative.
pub proof fn readings_keep_their_numbers(reading: MetricReading, value: MetricValue)
    requires
        reading.shown_by(value),
    ensures
        match reading {
            MetricReading::Counter(number) => value == MetricValue::Sum(
                NumberValue::Integer(number),
            ) && reading.metric_kind() == (MetricKind::Sum { temporality: 2, monotonic: true }),
            MetricReading::GaugeInteger(number) => value == MetricValue::Gauge(
                NumberValue::Integer(number),
            ) && reading.metric_kind() == MetricKind::Gauge,
            MetricReading::GaugeBits(bits) => value == MetricValue::Gauge(
                NumberValue::DoubleBits(bits),
            ) && reading.metric_kind() == MetricKind::Gauge,
            MetricReading::Histogram(_) => value is ExplicitHistogram && reading.metric_kind() == (
            MetricKind::ExplicitHistogram { temporality: 2 }),
            MetricReading::Distribution(_) => value is ExponentialHistogram
                && reading.metric_kind() == (MetricKind::ExponentialHistogram { temporality: 2 }),
        },
{
}

/// Whether a cumulative reading has counted nothing.
pub open spec fn counted_nothing(reading: MetricReading) -> bool {
    ||| reading == MetricReading::Counter(0)
    ||| reading matches MetricReading::Histogram(histogram) && histogram.count == 0
    ||| reading matches MetricReading::Distribution(distribution) && distribution.count == 0
}

/// Where nothing is dropped, an export takes every snapshot but the cumulative
/// ones that counted nothing, and takes those too where they are not skipped.
pub proof fn exports_take_every_snapshot(
    config: FastTelemetryConfig,
    admitted: Set<u128>,
    snapshots: Seq<MetricSnapshot>,
    count: nat,
)
    requires
        admitted.finite(),
        admitted.len() <= config.max_series,
        count <= snapshots.len(),
        export_after(config, admitted, snapshots, count).dropped == 0,
    ensures
        forall|i: int|
            0 <= i < count ==> (export_after(config, admitted, snapshots, count).taken.contains(i)
                <==> !(config.skip_empty_cumulative && counted_nothing(
                (#[trigger] snapshots[i]).reading,
            ))),
    decreases count,
{
    if count > 0 {
        let before = (count - 1) as nat;
        let last = before as int;
        let earlier = export_after(config, admitted, snapshots, before).taken;
        let now = export_after(config, admitted, snapshots, count).taken;
        exports_take_every_snapshot(config, admitted, snapshots, before);
        exports_are_bounded(config, admitted, snapshots, before);
        exports_are_bounded(config, admitted, snapshots, count);
        assert(snapshots[last].reading.is_empty_cumulative() <==> counted_nothing(
            snapshots[last].reading,
        ));
        assert forall|i: int| 0 <= i < count implies (now.contains(i) <==> !(
        config.skip_empty_cumulative && counted_nothing((#[trigger] snapshots[i]).reading))) by {
            if now.len() > earlier.len() {
                assert(now[earlier.len() as int] == last);
            }
            if earlier.contains(i) {
                let k = choose|k: int| 0 <= k < earlier.len() && earlier[k] == i;
                assert(now[k] == i);
                assert(earlier[k] < before);
            }
            if now.contains(i) {
                let k = choose|k: int| 0 <= k < now.len() && now[k] == i;
                if k < earlier.len() {
                    assert(earlier[k] == i);
                }
            }
        }
    }
}

/// An export drops nothing as long as there are no more snapshots than points may
/// be exported, nor more than series may still be admitted.
pub proof fn small_exports_drop_nothing(
    config: FastTelemetryConfig,
    admitted: Set<u128>,
    snapshots: Seq<MetricSnapshot>,
    count: nat,
)
    requires
        admitted.finite(),
        count <= snapshots.len(),
        count <= config.max_points_per_export,
        admitted.len() + count <= config.max_series,
    ensures
        export_after(config, admitted, snapshots, count).dropped == 0,
        export_after(config, admitted, snapshots, count).taken.len() <= count,
        export_after(config, admitted, snapshots, count).admitted.finite(),
        export_after(config, admitted, snapshots, count).admitted.len() <= admitted.len() + count,
    decreases count,
{
    if count > 0 {
        small_exports_drop_nothing(config, admitted, snapshots, (count - 1) as nat);
    }
}

/// A configuration is accepted exactly where it names a tenant and leaves room for
/// time, points and series.
pub proof fn roomy_configurations_are_accepted(config: FastTelemetryConfig)
    ensures
        config.complaint() is None <==> config.tenant@.len() > 0 && config.interval.nanos > 0
            && config.max_points_per_export > 0 && config.max_series > 0,
{
}

} // verus!
