//! Metric snapshots of a running process, on their way into an embedded store.

use std::collections::BTreeSet;
use std::sync::Arc;

use vstd::bytes::{spec_u32_to_le_bytes, spec_u64_to_le_bytes};
use vstd::prelude::*;

use crate::attributes::{
    canonical_attribute, canonical_attributes, sized_text, TelemetryAttribute, TelemetryValue,
};
use crate::digest::identity_of;
use crate::embedded::{EmbeddedTelemetryRuntime, StoreRequest, TimeSpan};
use crate::error::{ApiErrorKind, LokiApiError};
use crate::model::{
    LogicalOffset, LogicalPartitionId, ShardId, TelemetryRecordRef, TelemetrySignal, TopicId,
    TopicPartition, METRICS_TOPIC_ID,
};
use crate::records::{
    canonical_kind, canonical_resource, canonical_scope, DurableMetricPoint, ExplicitHistogramValue,
    ExponentialHistogramBuckets, ExponentialHistogramValue, HistogramBucketSpan, HistogramCount,
    MetricIdentity, MetricKind, MetricValue, NumberValue, ResourceContext, ScopeContext,
};
use crate::shared::share;

verus! {

/// Aggregation over the lifetime of an instrument.
pub const CUMULATIVE_TEMPORALITY: i32 = 2;

/// Seconds between exports.
pub const DEFAULT_EXPORT_INTERVAL_SECONDS: u64 = 5;

/// Points of one export.
pub const DEFAULT_MAX_POINTS_PER_EXPORT: usize = 65_536;

/// Series of one exporter.
pub const DEFAULT_MAX_SERIES: usize = 65_536;

/// Bounded configuration for a periodic snapshot.
#[derive(Debug, PartialEq, Eq)]
pub struct FastTelemetryConfig {
    /// Tenant attached to every exported metric series.
    pub tenant: String,
    /// Resource attributes attached to every exported metric series.
    pub resource_attributes: Vec<TelemetryAttribute>,
    /// Version attached to each registered scope.
    pub scope_version: String,
    /// Recommended interval for the host-owned export timer.
    pub interval: TimeSpan,
    /// Maximum points emitted by one runtime snapshot.
    pub max_points_per_export: usize,
    /// Maximum distinct metric identities admitted over this exporter's
    /// lifetime, including arbitrary label combinations.
    pub max_series: usize,
    /// Whether zero counters and empty histograms/distributions are skipped.
    pub skip_empty_cumulative: bool,
    /// Whether an export waits until the local query index has applied its WAL
    /// append.
    pub wait_for_index: bool,
}

impl FastTelemetryConfig {
    /// Creates a conventional configuration with one `service.name` resource
    /// attribute.
    pub fn new(tenant: String, service_name: String) -> (config: Self)
        ensures
            config.tenant == tenant,
            config.resource_attributes@.len() == 1,
            config.resource_attributes@[0].key@ == "service.name"@,
            config.resource_attributes@[0].value == Some(TelemetryValue::String(service_name)),
            config.scope_version@ == "fast-telemetry"@,
            config.interval.nanos == 5_000_000_000,
            config.max_points_per_export == 65_536,
            config.max_series == 65_536,
            config.skip_empty_cumulative,
            config.wait_for_index,
    {
        let mut resource_attributes: Vec<TelemetryAttribute> = Vec::new();
        resource_attributes.push(
            TelemetryAttribute::new("service.name", TelemetryValue::String(service_name)),
        );
        Self {
            tenant,
            resource_attributes,
            scope_version: "fast-telemetry".to_owned(),
            interval: TimeSpan::from_secs(DEFAULT_EXPORT_INTERVAL_SECONDS),
            max_points_per_export: DEFAULT_MAX_POINTS_PER_EXPORT,
            max_series: DEFAULT_MAX_SERIES,
            skip_empty_cumulative: true,
            wait_for_index: true,
        }
    }

    /// Adds one typed resource attribute to every exported series.
    pub fn with_resource_attribute(self, attribute: TelemetryAttribute) -> (config: Self)
        ensures
            config.resource_attributes@ == self.resource_attributes@.push(attribute),
            config == (Self { resource_attributes: config.resource_attributes, ..self }),
    {
        let mut config = self;
        config.resource_attributes.push(attribute);
        config
    }

    /// Sets the recommended host-owned export interval.
    pub fn with_interval(self, interval: TimeSpan) -> (config: Self)
        ensures
            config == (Self { interval, ..self }),
    {
        let mut config = self;
        config.interval = interval;
        config
    }

    /// Sets the maximum points accepted from one snapshot.
    pub fn with_max_points_per_export(self, max_points: usize) -> (config: Self)
        ensures
            config == (Self { max_points_per_export: max_points, ..self }),
    {
        let mut config = self;
        config.max_points_per_export = max_points;
        config
    }

    /// Sets the lifetime bound for distinct exported metric identities.
    pub fn with_max_series(self, max_series: usize) -> (config: Self)
        ensures
            config == (Self { max_series, ..self }),
    {
        let mut config = self;
        config.max_series = max_series;
        config
    }

    /// Sets whether empty cumulative instruments are omitted.
    pub fn with_skip_empty_cumulative(self, skip: bool) -> (config: Self)
        ensures
            config == (Self { skip_empty_cumulative: skip, ..self }),
    {
        let mut config = self;
        config.skip_empty_cumulative = skip;
        config
    }

    /// Chooses between query-visible and WAL-only local acknowledgement.
    pub fn with_wait_for_index(self, wait_for_index: bool) -> (config: Self)
        ensures
            config == (Self { wait_for_index, ..self }),
    {
        let mut config = self;
        config.wait_for_index = wait_for_index;
        config
    }

    /// What is said of a configuration that is refused.
    pub open spec fn complaint(&self) -> Option<Seq<char>> {
        if self.tenant@.len() == 0 {
            Some("fast-telemetry tenant must not be empty"@)
        } else if self.interval.nanos == 0 {
            Some("fast-telemetry export interval must be nonzero"@)
        } else if self.max_points_per_export == 0 {
            Some("fast-telemetry export point limit must be nonzero"@)
        } else if self.max_series == 0 {
            Some("fast-telemetry export series limit must be nonzero"@)
        } else {
            None
        }
    }

    /// Checks the configuration as a whole.
    pub fn validate(&self) -> (checked: Result<(), LokiApiError>)
        ensures
            match checked {
                Ok(_) => self.complaint() is None,
                Err(error) => self.complaint() is Some && error.says(
                    ApiErrorKind::Configuration,
                    self.complaint()->0,
                ),
            },
    {
        if self.tenant.as_str().is_empty() {
            return Err(LokiApiError::configuration("fast-telemetry tenant must not be empty"));
        }
        if self.interval.is_zero() {
            return Err(
                LokiApiError::configuration("fast-telemetry export interval must be nonzero"),
            );
        }
        if self.max_points_per_export == 0 {
            return Err(
                LokiApiError::configuration("fast-telemetry export point limit must be nonzero"),
            );
        }
        if self.max_series == 0 {
            return Err(
                LokiApiError::configuration("fast-telemetry export series limit must be nonzero"),
            );
        }
        Ok(())
    }
}

/// Counters returned by one embedded snapshot export.
#[derive(Debug, Clone, Copy, PartialEq, Eq, Structural)]
pub struct FastTelemetryExportReport {
    /// Points observed after empty-cumulative filtering and before the cap.
    pub observed_points: usize,
    /// Points omitted by either the per-export point cap or lifetime series
    /// admission cap.
    pub dropped_points: usize,
    /// Points omitted because their distinct identity exceeded the lifetime
    /// series cap.
    pub dropped_cardinality_points: usize,
    /// Distinct identities currently admitted by this exporter.
    pub admitted_series: usize,
    /// Points acknowledged by the embedded store.
    pub appended_points: usize,
    /// Per-series durable envelopes appended by the store.
    pub append_batches: usize,
    /// Whether another export was already active.
    pub skipped_busy: bool,
}

/// One label of a metric.
#[derive(Debug, PartialEq, Eq)]
pub struct MetricLabel {
    /// Label name.
    pub name: String,
    /// Label value.
    pub value: String,
}

/// One bucket of a histogram reading.
#[derive(Debug, Clone, Copy, PartialEq, Eq, Structural)]
pub struct CumulativeBucket {
    /// IEEE-754 bits of the upper bound.
    pub bound_bits: u64,
    /// Observations up to that bound.
    pub cumulative_count: u64,
}

/// Reading of a histogram.
#[derive(Debug, PartialEq, Eq)]
pub struct HistogramReading {
    /// Observations.
    pub count: u64,
    /// IEEE-754 bits of their sum.
    pub sum_bits: u64,
    /// Buckets in the order in which they are visited.
    pub buckets: Vec<CumulativeBucket>,
}

/// One sparse bucket of a distribution.
#[derive(Debug, Clone, Copy, PartialEq, Eq, Structural)]
pub struct SparseBucket {
    /// Index of the bucket.
    pub index: i32,
    /// Observations in it.
    pub count: u64,
}

/// Reading of a distribution.
#[derive(Debug, PartialEq, Eq)]
pub struct DistributionReading {
    /// Observations.
    pub count: u64,
    /// IEEE-754 bits of their sum.
    pub sum_bits: u64,
    /// Observations of zero.
    pub zero_count: u64,
    /// IEEE-754 bits of the smallest observation.
    pub min_bits: Option<u64>,
    /// IEEE-754 bits of the largest observation.
    pub max_bits: Option<u64>,
    /// Positive buckets in the order in which they are visited.
    pub positive: Vec<SparseBucket>,
}

/// What an instrument shows.
#[derive(Debug, PartialEq, Eq)]
pub enum MetricReading {
    /// A monotonic counter.
    Counter(i64),
    /// A gauge of integers.
    GaugeInteger(i64),
    /// IEEE-754 bits of a gauge of doubles.
    GaugeBits(u64),
    /// A histogram.
    Histogram(HistogramReading),
    /// A distribution.
    Distribution(DistributionReading),
}

/// One instrument at one time.
#[derive(Debug, PartialEq, Eq)]
pub struct MetricSnapshot {
    /// Scope that registered the instrument.
    pub scope: String,
    /// Instrument name.
    pub name: String,
    /// Instrument description.
    pub help: String,
    /// Instrument unit.
    pub unit: Option<String>,
    /// Labels of the series.
    pub labels: Vec<MetricLabel>,
    /// What the instrument shows.
    pub reading: MetricReading,
}

/// Inserts a bucket before the first one with a larger index.
pub open spec fn insert_bucket(buckets: Seq<SparseBucket>, bucket: SparseBucket) -> Seq<SparseBucket>
    decreases buckets.len(),
{
    if buckets.len() == 0 || buckets.last().index <= bucket.index {
        buckets.push(bucket)
    } else {
        insert_bucket(buckets.drop_last(), bucket).push(buckets.last())
    }
}

/// Buckets in the order of their indexes.
pub open spec fn sorted_buckets(buckets: Seq<SparseBucket>) -> Seq<SparseBucket>
    decreases buckets.len(),
{
    if buckets.len() == 0 {
        Seq::empty()
    } else {
        insert_bucket(sorted_buckets(buckets.drop_last()), buckets.last())
    }
}

/// Where the buckets so far end.
pub open spec fn buckets_end(buckets: Seq<SparseBucket>) -> int {
    if buckets.len() == 0 {
        0
    } else {
        buckets.last().index + 1
    }
}

/// The distance to a bucket, as far as a span can tell it.
pub open spec fn span_offset(distance: int) -> i32 {
    if distance > i32::MAX {
        i32::MAX
    } else {
        distance as i32
    }
}

/// Runs of consecutive buckets.
pub open spec fn bucket_spans(buckets: Seq<SparseBucket>) -> Seq<HistogramBucketSpan>
    decreases buckets.len(),
{
    if buckets.len() == 0 {
        Seq::empty()
    } else {
        let before = bucket_spans(buckets.drop_last());
        let end = buckets_end(buckets.drop_last());
        let index = buckets.last().index as int;
        if before.len() > 0 && index == end {
            let last = before.last();
            before.drop_last().push(
                HistogramBucketSpan {
                    offset: last.offset,
                    length: if last.length == u32::MAX {
                        u32::MAX
                    } else {
                        (last.length + 1) as u32
                    },
                },
            )
        } else {
            before.push(HistogramBucketSpan { offset: span_offset(index - end), length: 1 })
        }
    }
}

/// Counts of buckets.
pub open spec fn bucket_numbers(buckets: Seq<SparseBucket>) -> Seq<HistogramCount> {
    Seq::new(buckets.len(), |i: int| HistogramCount::Integer(buckets[i].count))
}

/// Observations up to the last bucket.
pub open spec fn counted(buckets: Seq<CumulativeBucket>) -> u64 {
    if buckets.len() == 0 {
        0
    } else {
        buckets.last().cumulative_count
    }
}

/// Difference that stops at zero.
pub open spec fn less(value: u64, amount: u64) -> u64 {
    if value < amount {
        0
    } else {
        (value - amount) as u64
    }
}

/// Observations of each bucket, and of the one above the last bound.
pub open spec fn bucket_differences(buckets: Seq<CumulativeBucket>, count: u64) -> Seq<HistogramCount> {
    Seq::new(
        buckets.len() + 1,
        |i: int|
            HistogramCount::Integer(
                if i == buckets.len() {
                    less(count, counted(buckets))
                } else {
                    less(buckets[i].cumulative_count, counted(buckets.take(i)))
                },
            ),
    )
}

/// Bounds of the buckets.
pub open spec fn bucket_bounds(buckets: Seq<CumulativeBucket>) -> Seq<u64> {
    Seq::new(buckets.len(), |i: int| buckets[i].bound_bits)
}

/// Whether a value is that of a histogram reading.
pub open spec fn histogram_shows(value: ExplicitHistogramValue, reading: HistogramReading) -> bool {
    &&& value.count == HistogramCount::Integer(reading.count)
    &&& value.sum_bits == Some(reading.sum_bits)
    &&& value.bucket_counts@ == bucket_differences(reading.buckets@, reading.count)
    &&& value.explicit_bounds_bits@ == bucket_bounds(reading.buckets@)
    &&& value.min_bits is None
    &&& value.max_bits is None
    &&& value.reset_hint == 0
}

/// Whether a value is that of a distribution reading.
pub open spec fn distribution_shows(value: ExponentialHistogramValue, reading: DistributionReading) -> bool {
    let sorted = sorted_buckets(reading.positive@);
    &&& value.count == HistogramCount::Integer(reading.count)
    &&& value.sum_bits == Some(reading.sum_bits)
    &&& value.scale == 0
    &&& value.zero_count == HistogramCount::Integer(reading.zero_count)
    &&& match value.positive {
        None => sorted.len() == 0,
        Some(positive) => sorted.len() > 0 && positive.spans@ == bucket_spans(sorted)
            && positive.bucket_counts@ == bucket_numbers(sorted),
    }
    &&& value.negative is None
    &&& value.min_bits == reading.min_bits
    &&& value.max_bits == reading.max_bits
    &&& value.zero_threshold_bits == 0
    &&& value.reset_hint == 0
}

impl MetricReading {
    /// Whether there is nothing to export.
    pub open spec fn is_empty_cumulative(&self) -> bool {
        match self {
            MetricReading::Counter(value) => *value == 0,
            MetricReading::Histogram(histogram) => histogram.count == 0,
            MetricReading::Distribution(distribution) => distribution.count == 0,
            _ => false,
        }
    }

    /// The metric kind of this reading.
    pub open spec fn metric_kind(&self) -> MetricKind {
        match self {
            MetricReading::Counter(_) => MetricKind::Sum { temporality: 2, monotonic: true },
            MetricReading::GaugeInteger(_) => MetricKind::Gauge,
            MetricReading::GaugeBits(_) => MetricKind::Gauge,
            MetricReading::Histogram(_) => MetricKind::ExplicitHistogram { temporality: 2 },
            MetricReading::Distribution(_) => MetricKind::ExponentialHistogram { temporality: 2 },
        }
    }

    /// Whether a value is that of this reading.
    pub open spec fn shown_by(&self, value: MetricValue) -> bool {
        match self {
            MetricReading::Counter(number) => value == MetricValue::Sum(
                NumberValue::Integer(*number),
            ),
            MetricReading::GaugeInteger(number) => value == MetricValue::Gauge(
                NumberValue::Integer(*number),
            ),
            MetricReading::GaugeBits(bits) => value == MetricValue::Gauge(
                NumberValue::DoubleBits(*bits),
            ),
            MetricReading::Histogram(histogram) => value matches MetricValue::ExplicitHistogram(
                shown,
            ) && histogram_shows(shown, *histogram),
            MetricReading::Distribution(distribution) => value matches MetricValue::ExponentialHistogram(
                shown,
            ) && distribution_shows(shown, *distribution),
        }
    }
}

/// Differences of a histogram reading.
fn explicit_value(reading: &HistogramReading) -> (value: ExplicitHistogramValue)
    ensures
        histogram_shows(value, *reading),
{
    let mut bounds: Vec<u64> = Vec::new();
    let mut counts: Vec<HistogramCount> = Vec::new();
    let mut previous: u64 = 0;
    let mut next: usize = 0;
    while next < reading.buckets.len()
        invariant
            next <= reading.buckets@.len(),
            previous == counted(reading.buckets@.take(next as int)),
            bounds@ == bucket_bounds(reading.buckets@.take(next as int)),
            counts@.len() == next,
            forall|i: int|
                0 <= i < next ==> #[trigger] counts@[i] == bucket_differences(
                    reading.buckets@,
                    reading.count,
                )[i],
        decreases reading.buckets@.len() - next,
    {
        let bucket = reading.buckets[next];
        bounds.push(bucket.bound_bits);
        counts.push(
            HistogramCount::Integer(
                if bucket.cumulative_count < previous {
                    0
                } else {
                    bucket.cumulative_count - previous
                },
            ),
        );
        previous = bucket.cumulative_count;
        next = next + 1;
        assert(reading.buckets@.take(next as int).last() == bucket);
        assert(bounds@ =~= bucket_bounds(reading.buckets@.take(next as int)));
    }
    assert(reading.buckets@.take(next as int) =~= reading.buckets@);
    counts.push(
        HistogramCount::Integer(
            if reading.count < previous {
                0
            } else {
                reading.count - previous
            },
        ),
    );
    assert(counts@ =~= bucket_differences(reading.buckets@, reading.count));
    ExplicitHistogramValue {
        count: HistogramCount::Integer(reading.count),
        sum_bits: Some(reading.sum_bits),
        bucket_counts: Arc::new(counts),
        explicit_bounds_bits: Arc::new(bounds),
        min_bits: None,
        max_bits: None,
        reset_hint: 0,
    }
}

/// Inserts a bucket before the first one with a larger index.
fn place_bucket(buckets: &mut Vec<SparseBucket>, bucket: SparseBucket)
    ensures
        final(buckets)@ == insert_bucket(old(buckets)@, bucket),
{
    let mut place = buckets.len();
    let ghost before = buckets@;
    assert(before.take(before.len() as int) =~= before);
    assert(before.skip(before.len() as int) =~= Seq::<SparseBucket>::empty());
    assert(insert_bucket(before, bucket) =~= insert_bucket(before.take(place as int), bucket)
        + before.skip(place as int));
    while place > 0 && buckets[place - 1].index > bucket.index
        invariant
            place <= before.len(),
            buckets@ == before,
            insert_bucket(before, bucket) == insert_bucket(before.take(place as int), bucket)
                + before.skip(place as int),
        decreases place,
    {
        proof {
            let longer = before.take(place as int);
            let shorter = before.take(place - 1);
            assert(longer.drop_last() =~= shorter);
            assert(longer.last() == before[place - 1]);
            assert(insert_bucket(longer, bucket) + before.skip(place as int) =~= insert_bucket(
                shorter,
                bucket,
            ) + before.skip(place - 1));
        }
        place = place - 1;
    }
    proof {
        let kept = before.take(place as int);
        if place > 0 {
            assert(kept.last() == before[place - 1]);
        }
        assert(insert_bucket(kept, bucket) == kept.push(bucket));
        assert(before.insert(place as int, bucket) =~= kept.push(bucket) + before.skip(
            place as int,
        ));
    }
    buckets.insert(place, bucket);
}

/// Sparse buckets of a distribution reading.
fn exponential_value(reading: &DistributionReading) -> (value: ExponentialHistogramValue)
    ensures
        distribution_shows(value, *reading),
{
    let mut sorted: Vec<SparseBucket> = Vec::new();
    let mut next: usize = 0;
    while next < reading.positive.len()
        invariant
            next <= reading.positive@.len(),
            sorted@ == sorted_buckets(reading.positive@.take(next as int)),
        decreases reading.positive@.len() - next,
    {
        assert(reading.positive@.take(next + 1).drop_last() =~= reading.positive@.take(
            next as int,
        ));
        place_bucket(&mut sorted, reading.positive[next]);
        next = next + 1;
    }
    assert(reading.positive@.take(next as int) =~= reading.positive@);
    let positive = if sorted.len() == 0 {
        None
    } else {
        let mut spans: Vec<HistogramBucketSpan> = Vec::new();
        let mut counts: Vec<HistogramCount> = Vec::new();
        let mut end: i64 = 0;
        let mut done: usize = 0;
        while done < sorted.len()
            invariant
                done <= sorted@.len(),
                sorted@ == sorted_buckets(reading.positive@),
                spans@ == bucket_spans(sorted@.take(done as int)),
                counts@ == bucket_numbers(sorted@.take(done as int)),
                end == buckets_end(sorted@.take(done as int)),
                i32::MIN <= end <= i32::MAX + 1,
            decreases sorted@.len() - done,
        {
            let bucket = sorted[done];
            let index = bucket.index as i64;
            let ghost before = spans@;
            assert(sorted@.take(done + 1).drop_last() =~= sorted@.take(done as int));
            assert(sorted@.take(done + 1).last() == bucket);
            if spans.len() > 0 && index == end {
                let last = spans.len() - 1;
                let mut span = spans[last];
                if span.length < u32::MAX {
                    span.length = span.length + 1;
                }
                spans.set(last, span);
                assert(spans@ =~= bucket_spans(sorted@.take(done + 1)));
            } else {
                let distance = index - end;
                let offset = if distance > i32::MAX as i64 {
                    i32::MAX
                } else {
                    proof {
                        buckets_are_sorted(reading.positive@);
                        if done > 0 {
                            assert(sorted@[done - 1].index <= sorted@[done as int].index);
                        }
                    }
                    distance as i32
                };
                spans.push(HistogramBucketSpan { offset, length: 1 });
                assert(spans@ =~= bucket_spans(sorted@.take(done + 1)));
            }
            counts.push(HistogramCount::Integer(bucket.count));
            assert(counts@ =~= bucket_numbers(sorted@.take(done + 1)));
            end = index + 1;
            done = done + 1;
        }
        assert(sorted@.take(done as int) =~= sorted@);
        Some(
            ExponentialHistogramBuckets { spans: Arc::new(spans), bucket_counts: Arc::new(counts) },
        )
    };
    ExponentialHistogramValue {
        count: HistogramCount::Integer(reading.count),
        sum_bits: Some(reading.sum_bits),
        scale: 0,
        zero_count: HistogramCount::Integer(reading.zero_count),
        positive,
        negative: None,
        min_bits: reading.min_bits,
        max_bits: reading.max_bits,
        zero_threshold_bits: 0,
        reset_hint: 0,
    }
}

/// Whether buckets are in the order of their indexes.
pub open spec fn in_index_order(buckets: Seq<SparseBucket>) -> bool {
    forall|i: int, j: int|
        0 <= i <= j < buckets.len() ==> (#[trigger] buckets[i]).index <= (
        #[trigger] buckets[j]).index
}

proof fn lemma_insert_bucket(buckets: Seq<SparseBucket>, bucket: SparseBucket)
    requires
        in_index_order(buckets),
    ensures
        in_index_order(insert_bucket(buckets, bucket)),
        insert_bucket(buckets, bucket).len() == buckets.len() + 1,
        insert_bucket(buckets, bucket).to_multiset() == buckets.to_multiset().insert(bucket),
        buckets.len() > 0 ==> insert_bucket(buckets, bucket).last().index == (if bucket.index
            >= buckets.last().index {
            bucket.index
        } else {
            buckets.last().index
        }),
    decreases buckets.len(),
{
    broadcast use vstd::seq_lib::group_to_multiset_ensures;

    if buckets.len() == 0 || buckets.last().index <= bucket.index {
        let inserted = buckets.push(bucket);
        assert forall|i: int, j: int| 0 <= i <= j < inserted.len() implies (
        #[trigger] inserted[i]).index <= (#[trigger] inserted[j]).index by {
            if j == buckets.len() && i < j {
                assert(buckets[i].index <= buckets[buckets.len() - 1].index);
            }
        }
    } else {
        let shorter = buckets.drop_last();
        lemma_insert_bucket(shorter, bucket);
        let inner = insert_bucket(shorter, bucket);
        let inserted = inner.push(buckets.last());
        assert(buckets =~= shorter.push(buckets.last()));
        assert(inserted.to_multiset() =~= buckets.to_multiset().insert(bucket));
        if shorter.len() > 0 {
            assert(shorter.last() == buckets[buckets.len() - 2]);
            assert(buckets[buckets.len() - 2].index <= buckets[buckets.len() - 1].index);
        } else {
            assert(inner =~= seq![bucket]);
        }
        assert(inner.last().index <= buckets.last().index);
        assert forall|i: int, j: int| 0 <= i <= j < inserted.len() implies (
        #[trigger] inserted[i]).index <= (#[trigger] inserted[j]).index by {
            if j == inner.len() && i < j {
                assert(inner[i].index <= inner[inner.len() - 1].index);
            }
        }
    }
}

/// Sorting buckets keeps every bucket and puts them in the order of their
/// indexes.
pub proof fn buckets_are_sorted(buckets: Seq<SparseBucket>)
    ensures
        in_index_order(sorted_buckets(buckets)),
        sorted_buckets(buckets).len() == buckets.len(),
        sorted_buckets(buckets).to_multiset() == buckets.to_multiset(),
    decreases buckets.len(),
{
    broadcast use vstd::seq_lib::group_to_multiset_ensures;

    if buckets.len() > 0 {
        buckets_are_sorted(buckets.drop_last());
        lemma_insert_bucket(sorted_buckets(buckets.drop_last()), buckets.last());
        assert(buckets =~= buckets.drop_last().push(buckets.last()));
    } else {
        assert(sorted_buckets(buckets) =~= buckets);
    }
}

/// Consecutive indexes from a first one.
pub open spec fn run_of(first: int, length: nat) -> Seq<int> {
    Seq::new(length, |i: int| first + i)
}

/// Where runs of buckets end.
pub open spec fn spans_end(spans: Seq<HistogramBucketSpan>) -> int
    decreases spans.len(),
{
    if spans.len() == 0 {
        0
    } else {
        spans_end(spans.drop_last()) + spans.last().offset + spans.last().length
    }
}

/// The bucket indexes that runs stand for.
pub open spec fn spans_indexes(spans: Seq<HistogramBucketSpan>) -> Seq<int>
    decreases spans.len(),
{
    if spans.len() == 0 {
        Seq::empty()
    } else {
        spans_indexes(spans.drop_last()) + run_of(
            spans_end(spans.drop_last()) + spans.last().offset,
            spans.last().length as nat,
        )
    }
}

/// The indexes of buckets.
pub open spec fn bucket_indexes(buckets: Seq<SparseBucket>) -> Seq<int> {
    Seq::new(buckets.len(), |i: int| buckets[i].index as int)
}

/// The runs of a distribution stand for exactly the indexes of its buckets,
/// in order, as long as no gap is too wide for a span and no run too long.
pub proof fn spans_name_the_buckets(buckets: Seq<SparseBucket>)
    requires
        buckets.len() <= u32::MAX,
        forall|i: int|
            0 < i < buckets.len() ==> 0 <= (#[trigger] buckets[i]).index - (buckets[i - 1].index + 1)
                <= i32::MAX,
    ensures
        spans_indexes(bucket_spans(buckets)) == bucket_indexes(buckets),
        spans_end(bucket_spans(buckets)) == buckets_end(buckets),
        forall|i: int|
            0 <= i < bucket_spans(buckets).len() ==> (#[trigger] bucket_spans(buckets)[i]).length
                <= buckets.len(),
        buckets.len() > 0 <==> bucket_spans(buckets).len() > 0,
    decreases buckets.len(),
{
    if buckets.len() == 0 {
        assert(bucket_indexes(buckets) =~= Seq::<int>::empty());
    } else {
        let shorter = buckets.drop_last();
        let bucket = buckets.last();
        assert forall|i: int| 0 < i < shorter.len() implies 0 <= (#[trigger] shorter[i]).index - (
        shorter[i - 1].index + 1) <= i32::MAX by {
            assert(shorter[i] == buckets[i]);
            assert(shorter[i - 1] == buckets[i - 1]);
        }
        spans_name_the_buckets(shorter);
        let before = bucket_spans(shorter);
        let spans = bucket_spans(buckets);
        let end = buckets_end(shorter);
        if shorter.len() > 0 {
            assert(buckets[buckets.len() - 1] == bucket);
            assert(shorter.last() == buckets[buckets.len() - 2]);
        }
        assert(bucket_indexes(buckets) =~= bucket_indexes(shorter).push(bucket.index as int));
        if before.len() > 0 && bucket.index == end {
            let last = before.last();
            assert(before[before.len() - 1] == last);
            assert(spans.drop_last() =~= before.drop_last());
            let first = spans_end(before.drop_last()) + last.offset;
            assert(run_of(first, (last.length + 1) as nat) =~= run_of(first, last.length as nat).push(
                first + last.length,
            ));
            assert(spans_indexes(spans) =~= spans_indexes(before).push(bucket.index as int));
            assert forall|i: int| 0 <= i < spans.len() implies (#[trigger] spans[i]).length
                <= buckets.len() by {
                assert(before[i].length <= shorter.len());
            }
        } else {
            assert(spans.drop_last() =~= before);
            assert(spans.last().offset == bucket.index - end);
            assert(run_of(bucket.index as int, 1) =~= seq![bucket.index as int]);
            assert(spans_indexes(spans) =~= spans_indexes(before).push(bucket.index as int));
            assert forall|i: int| 0 <= i < spans.len() implies (#[trigger] spans[i]).length
                <= buckets.len() by {
                if i < before.len() {
                    assert(before[i].length <= shorter.len());
                }
            }
        }
    }
}

/// Canonical bytes of the labels of a series.
pub open spec fn canonical_labels(labels: Seq<MetricLabel>) -> Seq<u8>
    decreases labels.len(),
{
    if labels.len() == 0 {
        Seq::empty()
    } else {
        canonical_labels(labels.drop_last()) + (sized_text(labels.last().name@) + (seq![2u8]
            + sized_text(labels.last().value@)))
    }
}

/// The unit of a snapshot.
pub open spec fn unit_text(unit: Option<String>) -> Seq<char> {
    match unit {
        Some(unit) => unit@,
        None => Seq::empty(),
    }
}

/// Canonical bytes of the resource that a configuration describes.
pub open spec fn exported_resource(config: FastTelemetryConfig) -> Seq<u8> {
    spec_u64_to_le_bytes(config.resource_attributes@.len() as u64) + canonical_attributes(
        config.resource_attributes@,
    ) + spec_u32_to_le_bytes(0) + sized_text(Seq::empty())
}

/// Canonical bytes of a scope of a configuration.
pub open spec fn exported_scope(config: FastTelemetryConfig, scope: Seq<char>) -> Seq<u8> {
    sized_text(scope) + sized_text(config.scope_version@) + spec_u64_to_le_bytes(0)
        + canonical_attributes(Seq::empty()) + spec_u32_to_le_bytes(0) + sized_text(Seq::empty())
}

/// The series that a snapshot belongs to.
pub open spec fn exported_series(config: FastTelemetryConfig, snapshot: MetricSnapshot) -> u128 {
    identity_of(
        sized_text(config.tenant@) + exported_resource(config) + exported_scope(
            config,
            snapshot.scope@,
        ) + sized_text(snapshot.name@) + sized_text(unit_text(snapshot.unit)) + canonical_kind(
            snapshot.reading.metric_kind(),
        ) + spec_u64_to_le_bytes(snapshot.labels@.len() as u64) + canonical_labels(snapshot.labels@),
    )
}

/// Whether attributes are the labels of a series.
pub open spec fn labels_shown(attributes: Seq<TelemetryAttribute>, labels: Seq<MetricLabel>) -> bool {
    &&& attributes.len() == labels.len()
    &&& forall|i: int|
        0 <= i < labels.len() ==> (#[trigger] attributes[i]).key@ == labels[i].name@
            && attributes[i].value == Some(TelemetryValue::String(labels[i].value))
}

/// Whether a point is that of a snapshot.
pub open spec fn point_shows(
    point: DurableMetricPoint,
    config: FastTelemetryConfig,
    timestamp_unix_nanos: u64,
    snapshot: MetricSnapshot,
) -> bool {
    let identity = *point.identity;
    &&& point.stream_shard_id == ShardId(0)
    &&& point.record_ref == (TelemetryRecordRef {
        signal: TelemetrySignal::Metrics,
        topic_partition: TopicPartition {
            topic_id: TopicId(METRICS_TOPIC_ID),
            partition_id: LogicalPartitionId(0),
        },
        offset: LogicalOffset(0),
    })
    &&& identity.tenant@ == config.tenant@
    &&& identity.resource.attributes@ == config.resource_attributes@
    &&& identity.resource.dropped_attributes_count == 0
    &&& identity.resource.schema_url@.len() == 0
    &&& identity.scope.name@ == snapshot.scope@
    &&& identity.scope.version@ == config.scope_version@
    &&& identity.scope.attributes@.len() == 0
    &&& identity.scope.dropped_attributes_count == 0
    &&& identity.scope.schema_url@.len() == 0
    &&& identity.name@ == snapshot.name@
    &&& identity.unit@ == unit_text(snapshot.unit)
    &&& identity.kind == snapshot.reading.metric_kind()
    &&& labels_shown(identity.point_attributes@, snapshot.labels@)
    &&& point.description@ == snapshot.help@
    &&& point.metadata@.len() == 0
    &&& point.start_time_unix_nanos == 0
    &&& point.timestamp_unix_nanos == timestamp_unix_nanos
    &&& point.flags == 0
    &&& snapshot.reading.shown_by(point.value)
    &&& point.exemplars@.len() == 0
}

/// How far an export has come.
#[verifier::ext_equal]
pub struct ExportProgress {
    /// Snapshots that became points.
    pub taken: Seq<int>,
    /// Points observed.
    pub observed: nat,
    /// Points dropped.
    pub dropped: nat,
    /// Points dropped for their series.
    pub dropped_cardinality: nat,
    /// Series admitted.
    pub admitted: Set<u128>,
}

/// The start of an export.
pub open spec fn export_start(admitted: Set<u128>) -> ExportProgress {
    ExportProgress {
        taken: Seq::empty(),
        observed: 0,
        dropped: 0,
        dropped_cardinality: 0,
        admitted,
    }
}

/// What a snapshot adds to an export.
pub open spec fn export_step(
    config: FastTelemetryConfig,
    progress: ExportProgress,
    snapshot: MetricSnapshot,
    position: int,
) -> ExportProgress {
    let series = exported_series(config, snapshot);
    if config.skip_empty_cumulative && snapshot.reading.is_empty_cumulative() {
        progress
    } else if progress.taken.len() >= config.max_points_per_export {
        ExportProgress {
            observed: progress.observed + 1,
            dropped: progress.dropped + 1,
            ..progress
        }
    } else if !progress.admitted.contains(series) && progress.admitted.len() >= config.max_series {
        ExportProgress {
            observed: progress.observed + 1,
            dropped: progress.dropped + 1,
            dropped_cardinality: progress.dropped_cardinality + 1,
            ..progress
        }
    } else {
        ExportProgress {
            taken: progress.taken.push(position),
            observed: progress.observed + 1,
            admitted: progress.admitted.insert(series),
            ..progress
        }
    }
}

/// How far an export has come after its first snapshots.
pub open spec fn export_after(
    config: FastTelemetryConfig,
    admitted: Set<u128>,
    snapshots: Seq<MetricSnapshot>,
    count: nat,
) -> ExportProgress
    decreases count,
{
    if count == 0 {
        export_start(admitted)
    } else {
        let before = (count - 1) as nat;
        export_step(
            config,
            export_after(config, admitted, snapshots, before),
            snapshots[before as int],
            before as int,
        )
    }
}

/// A snapshot becomes a point exactly once or is dropped, the point cap and
/// the series cap hold throughout, and admitted series stay admitted.
pub proof fn exports_are_bounded(
    config: FastTelemetryConfig,
    admitted: Set<u128>,
    snapshots: Seq<MetricSnapshot>,
    count: nat,
)
    requires
        admitted.finite(),
        admitted.len() <= config.max_series,
        count <= snapshots.len(),
    ensures
        ({
            let progress = export_after(config, admitted, snapshots, count);
            &&& progress.observed == progress.taken.len() + progress.dropped
            &&& progress.observed <= count
            &&& progress.dropped_cardinality <= progress.dropped
            &&& progress.taken.len() <= config.max_points_per_export
            &&& progress.admitted.finite()
            &&& progress.admitted.len() <= config.max_series
            &&& admitted.subset_of(progress.admitted)
            &&& forall|k: int| 0 <= k < progress.taken.len() ==> 0 <= #[trigger] progress.taken[k] < count
            &&& forall|k: int|
                0 <= k < progress.taken.len() ==> progress.admitted.contains(
                    exported_series(config, snapshots[#[trigger] progress.taken[k]]),
                )
            &&& forall|j: int, k: int|
                0 <= j < k < progress.taken.len() ==> #[trigger] progress.taken[j]
                    < #[trigger] progress.taken[k]
        }),
    decreases count,
{
    if count > 0 {
        let before = (count - 1) as nat;
        exports_are_bounded(config, admitted, snapshots, before);
    }
}

impl MetricSnapshot {
    /// Whether this snapshot is left out of an export.
    fn is_skipped(&self, skip_empty_cumulative: bool) -> (skipped: bool)
        ensures
            skipped == (skip_empty_cumulative && self.reading.is_empty_cumulative()),
    {
        skip_empty_cumulative && match &self.reading {
            MetricReading::Counter(value) => *value == 0,
            MetricReading::Histogram(histogram) => histogram.count == 0,
            MetricReading::Distribution(distribution) => distribution.count == 0,
            _ => false,
        }
    }
}

/// The kind and value of a reading.
fn metric_value(reading: &MetricReading) -> (shown: (MetricKind, MetricValue))
    ensures
        shown.0 == reading.metric_kind(),
        reading.shown_by(shown.1),
{
    match reading {
        MetricReading::Counter(value) => (
            MetricKind::Sum { temporality: CUMULATIVE_TEMPORALITY, monotonic: true },
            MetricValue::Sum(NumberValue::Integer(*value)),
        ),
        MetricReading::GaugeInteger(value) => (
            MetricKind::Gauge,
            MetricValue::Gauge(NumberValue::Integer(*value)),
        ),
        MetricReading::GaugeBits(bits) => (
            MetricKind::Gauge,
            MetricValue::Gauge(NumberValue::DoubleBits(*bits)),
        ),
        MetricReading::Histogram(histogram) => (
            MetricKind::ExplicitHistogram { temporality: CUMULATIVE_TEMPORALITY },
            MetricValue::ExplicitHistogram(explicit_value(histogram)),
        ),
        MetricReading::Distribution(distribution) => (
            MetricKind::ExponentialHistogram { temporality: CUMULATIVE_TEMPORALITY },
            MetricValue::ExponentialHistogram(exponential_value(distribution)),
        ),
    }
}

/// Labels of a series as attributes.
fn label_attributes(labels: &Vec<MetricLabel>) -> (attributes: Vec<TelemetryAttribute>)
    ensures
        labels_shown(attributes@, labels@),
{
    let mut attributes: Vec<TelemetryAttribute> = Vec::new();
    let mut next: usize = 0;
    while next < labels.len()
        invariant
            next <= labels@.len(),
            attributes@.len() == next,
            forall|i: int|
                0 <= i < next ==> (#[trigger] attributes@[i]).key@ == labels@[i].name@
                    && attributes@[i].value == Some(TelemetryValue::String(labels@[i].value)),
        decreases labels@.len() - next,
    {
        let label = &labels[next];
        attributes.push(
            TelemetryAttribute::new(
                label.name.as_str(),
                TelemetryValue::String(label.value.clone()),
            ),
        );
        next = next + 1;
    }
    attributes
}

proof fn lemma_label_bytes(attributes: Seq<TelemetryAttribute>, labels: Seq<MetricLabel>)
    requires
        labels_shown(attributes, labels),
    ensures
        canonical_attributes(attributes) == canonical_labels(labels),
    decreases labels.len(),
{
    if labels.len() > 0 {
        let last = labels.len() - 1;
        assert(attributes[last].key@ == labels[last].name@);
        assert forall|i: int| 0 <= i < labels.drop_last().len() implies (
        #[trigger] attributes.drop_last()[i]).key@ == labels.drop_last()[i].name@
            && attributes.drop_last()[i].value == Some(
            TelemetryValue::String(labels.drop_last()[i].value),
        ) by {
            assert(attributes[i].key@ == labels[i].name@);
        }
        lemma_label_bytes(attributes.drop_last(), labels.drop_last());
        assert(canonical_attribute(attributes.last()) == sized_text(labels.last().name@) + (
        seq![2u8] + sized_text(labels.last().value@)));
    }
}

/// The identity of a snapshot is its series.
proof fn lemma_series(config: FastTelemetryConfig, snapshot: MetricSnapshot, identity: MetricIdentity)
    requires
        identity.tenant@ == config.tenant@,
        identity.resource.attributes@ == config.resource_attributes@,
        identity.resource.dropped_attributes_count == 0,
        identity.resource.schema_url@.len() == 0,
        identity.scope.name@ == snapshot.scope@,
        identity.scope.version@ == config.scope_version@,
        identity.scope.attributes@.len() == 0,
        identity.scope.dropped_attributes_count == 0,
        identity.scope.schema_url@.len() == 0,
        identity.name@ == snapshot.name@,
        identity.unit@ == unit_text(snapshot.unit),
        identity.kind == snapshot.reading.metric_kind(),
        labels_shown(identity.point_attributes@, snapshot.labels@),
    ensures
        identity.series().0 == exported_series(config, snapshot),
{
    lemma_label_bytes(identity.point_attributes@, snapshot.labels@);
    assert(identity.resource.schema_url@ =~= Seq::<char>::empty());
    assert(identity.scope.schema_url@ =~= Seq::<char>::empty());
    assert(identity.scope.attributes@ =~= Seq::<TelemetryAttribute>::empty());
    assert(canonical_resource(*identity.resource) == exported_resource(config));
    assert(canonical_scope(*identity.scope) == exported_scope(config, snapshot.scope@));
}

/// What an export asks of the store, and what it already knows of its report.
#[derive(Debug, PartialEq, Eq)]
pub struct PendingExport {
    /// Report without the acknowledgement.
    pub report: FastTelemetryExportReport,
    /// Points to append, where there are any.
    pub request: Option<StoreRequest>,
}

impl PendingExport {
    /// Whether this is the export of these snapshots.
    pub open spec fn exports(
        &self,
        config: FastTelemetryConfig,
        admitted: Set<u128>,
        timestamp_unix_nanos: u64,
        snapshots: Seq<MetricSnapshot>,
    ) -> bool {
        let progress = export_after(config, admitted, snapshots, snapshots.len());
        &&& self.report.observed_points == progress.observed
        &&& self.report.dropped_points == progress.dropped
        &&& self.report.dropped_cardinality_points == progress.dropped_cardinality
        &&& self.report.admitted_series == progress.admitted.len()
        &&& self.report.appended_points == progress.taken.len()
        &&& self.report.append_batches == 0
        &&& !self.report.skipped_busy
        &&& match self.request {
            None => progress.taken.len() == 0,
            Some(StoreRequest::AppendMetrics { points, wait_for_index }) => {
                &&& wait_for_index == config.wait_for_index
                &&& points@.len() == progress.taken.len() > 0
                &&& forall|k: int|
                    0 <= k < points@.len() ==> point_shows(
                        #[trigger] points@[k],
                        config,
                        timestamp_unix_nanos,
                        snapshots[progress.taken[k]],
                    )
            },
            Some(_) => false,
        }
    }
}

/// A time as Unix nanoseconds, as far as they can be told.
pub open spec fn unix_nanos(since_epoch: TimeSpan) -> u64 {
    if since_epoch.nanos > u64::MAX {
        u64::MAX
    } else {
        since_epoch.nanos as u64
    }
}

/// The report of an export that found another one active.
pub open spec fn busy_report() -> FastTelemetryExportReport {
    FastTelemetryExportReport {
        observed_points: 0,
        dropped_points: 0,
        dropped_cardinality_points: 0,
        admitted_series: 0,
        appended_points: 0,
        append_batches: 0,
        skipped_busy: true,
    }
}

/// Background-driven bridge from the instruments of a process to local durable
/// storage.
#[derive(Debug)]
pub struct FastTelemetryExporter {
    tenant: String,
    resource: Arc<ResourceContext>,
    scope_version: String,
    interval: TimeSpan,
    max_points_per_export: usize,
    max_series: usize,
    skip_empty_cumulative: bool,
    wait_for_index: bool,
    exporting: bool,
    admitted_series: BTreeSet<u128>,
}

impl FastTelemetryExporter {
    /// The configuration of the exporter.
    pub closed spec fn settings(&self) -> FastTelemetryConfig {
        FastTelemetryConfig {
            tenant: self.tenant,
            resource_attributes: *self.resource.attributes,
            scope_version: self.scope_version,
            interval: self.interval,
            max_points_per_export: self.max_points_per_export,
            max_series: self.max_series,
            skip_empty_cumulative: self.skip_empty_cumulative,
            wait_for_index: self.wait_for_index,
        }
    }

    /// The series admitted so far.
    pub closed spec fn admitted(&self) -> Set<u128> {
        self.admitted_series@
    }

    /// Whether an export is under way.
    pub closed spec fn busy(&self) -> bool {
        self.exporting
    }

    /// Whether the series cap holds.
    pub closed spec fn well_formed(&self) -> bool {
        &&& self.admitted_series@.finite()
        &&& self.admitted_series@.len() <= self.max_series
        &&& self.resource.dropped_attributes_count == 0
        &&& self.resource.schema_url@.len() == 0
    }

    /// An exporter never admits more series than its cap.
    pub proof fn series_are_capped(&self)
        requires
            self.well_formed(),
        ensures
            self.admitted().finite(),
            self.admitted().len() <= self.settings().max_series,
    {
    }

    /// Creates an exporter.
    pub fn new(config: FastTelemetryConfig) -> (exporter: Result<Self, LokiApiError>)
        ensures
            match exporter {
                Ok(exporter) => {
                    &&& config.complaint() is None
                    &&& exporter.well_formed()
                    &&& exporter.settings() == config
                    &&& exporter.admitted() == Set::<u128>::empty()
                    &&& !exporter.busy()
                },
                Err(error) => config.complaint() is Some && error.says(
                    ApiErrorKind::Configuration,
                    config.complaint()->0,
                ),
            },
    {
        config.validate()?;
        let nothing = "";
        proof {
            reveal_strlit("");
        }
        let resource = Arc::new(
            ResourceContext {
                attributes: Arc::new(config.resource_attributes),
                dropped_attributes_count: 0,
                schema_url: nothing.to_owned(),
            },
        );
        Ok(
            Self {
                tenant: config.tenant,
                resource,
                scope_version: config.scope_version,
                interval: config.interval,
                max_points_per_export: config.max_points_per_export,
                max_series: config.max_series,
                skip_empty_cumulative: config.skip_empty_cumulative,
                wait_for_index: config.wait_for_index,
                exporting: false,
                admitted_series: BTreeSet::new(),
            },
        )
    }

    /// Returns the recommended interval for a host-owned periodic task.
    pub fn interval(&self) -> (interval: TimeSpan)
        ensures
            interval == self.settings().interval,
    {
        self.interval
    }

    /// The point of one snapshot.
    fn point_of(&self, timestamp_unix_nanos: u64, snapshot: &MetricSnapshot) -> (point:
        DurableMetricPoint)
        requires
            self.well_formed(),
        ensures
            point_shows(point, self.settings(), timestamp_unix_nanos, *snapshot),
            point.identity.series().0 == exported_series(self.settings(), *snapshot),
    {
        let nothing = "";
        proof {
            reveal_strlit("");
        }
        let (kind, value) = metric_value(&snapshot.reading);
        let scope = Arc::new(
            ScopeContext {
                name: snapshot.scope.clone(),
                version: self.scope_version.clone(),
                attributes: Arc::new(Vec::new()),
                dropped_attributes_count: 0,
                schema_url: nothing.to_owned(),
            },
        );
        let unit = match &snapshot.unit {
            Some(unit) => unit.clone(),
            None => nothing.to_owned(),
        };
        assert(unit@ =~= unit_text(snapshot.unit));
        let identity = MetricIdentity {
            tenant: self.tenant.clone(),
            resource: share(&self.resource),
            scope,
            name: snapshot.name.clone(),
            unit,
            kind,
            point_attributes: Arc::new(label_attributes(&snapshot.labels)),
        };
        proof {
            lemma_series(self.settings(), *snapshot, identity);
        }
        DurableMetricPoint {
            stream_shard_id: ShardId::new(0),
            record_ref: TelemetryRecordRef::for_signal(
                TelemetrySignal::Metrics,
                TopicPartition::new(TopicId::new(METRICS_TOPIC_ID), LogicalPartitionId::new(0)),
                LogicalOffset::new(0),
            ),
            identity: Arc::new(identity),
            description: snapshot.help.clone(),
            metadata: Arc::new(Vec::new()),
            start_time_unix_nanos: 0,
            timestamp_unix_nanos,
            flags: 0,
            value,
            exemplars: Arc::new(Vec::new()),
        }
    }

    /// Starts an export of the registered metric groups at an explicit
    /// timestamp, as far as `runtime` admits ingestion. Nothing is taken while
    /// another export is under way. Where points were taken and the runtime is not
    /// ready, its refusal ends the export; admitted series stay admitted.
    pub fn export_once_at(
        &mut self,
        runtime: &EmbeddedTelemetryRuntime,
        timestamp_unix_nanos: u64,
        snapshots: &Vec<MetricSnapshot>,
    ) -> (pending: Result<PendingExport, LokiApiError>)
        requires
            old(self).well_formed(),
        ensures
            final(self).well_formed(),
            final(self).settings() == old(self).settings(),
            if old(self).busy() {
                &&& final(self).busy()
                &&& final(self).admitted() == old(self).admitted()
                &&& pending matches Ok(pending) && pending.report == busy_report()
                    && pending.request is None
            } else {
                let progress = export_after(
                    old(self).settings(),
                    old(self).admitted(),
                    snapshots@,
                    snapshots@.len(),
                );
                &&& final(self).admitted() == progress.admitted
                &&& match pending {
                    Ok(pending) => {
                        &&& final(self).busy()
                        &&& progress.taken.len() > 0 ==> runtime.admission(Ok(()))
                        &&& pending.exports(
                            old(self).settings(),
                            old(self).admitted(),
                            timestamp_unix_nanos,
                            snapshots@,
                        )
                    },
                    Err(error) => {
                        &&& !final(self).busy()
                        &&& progress.taken.len() > 0
                        &&& runtime.admission(Err(error))
                    },
                }
            },
    {
        broadcast use vstd::std_specs::btree::group_btree_axioms;

        if self.exporting {
            return Ok(
                PendingExport {
                    report: FastTelemetryExportReport {
                        observed_points: 0,
                        dropped_points: 0,
                        dropped_cardinality_points: 0,
                        admitted_series: 0,
                        appended_points: 0,
                        append_batches: 0,
                        skipped_busy: true,
                    },
                    request: None,
                },
            );
        }
        self.exporting = true;
        let ghost config = self.settings();
        let ghost admitted = self.admitted();
        let mut points: Vec<DurableMetricPoint> = Vec::new();
        let mut observed: usize = 0;
        let mut dropped: usize = 0;
        let mut dropped_cardinality: usize = 0;
        let mut next: usize = 0;
        while next < snapshots.len()
            invariant
                next <= snapshots@.len(),
                config == old(self).settings(),
                admitted == old(self).admitted(),
                admitted.finite(),
                admitted.len() <= config.max_series,
                self.well_formed(),
                self.settings() == config,
                self.exporting,
                self.admitted() == export_after(config, admitted, snapshots@, next as nat).admitted,
                observed == export_after(config, admitted, snapshots@, next as nat).observed,
                dropped == export_after(config, admitted, snapshots@, next as nat).dropped,
                dropped_cardinality == export_after(
                    config,
                    admitted,
                    snapshots@,
                    next as nat,
                ).dropped_cardinality,
                points@.len() == export_after(config, admitted, snapshots@, next as nat).taken.len(),
                forall|k: int|
                    0 <= k < points@.len() ==> point_shows(
                        #[trigger] points@[k],
                        config,
                        timestamp_unix_nanos,
                        snapshots@[export_after(config, admitted, snapshots@, next as nat).taken[k]],
                    ),
            decreases snapshots@.len() - next,
        {
            let ghost before = export_after(config, admitted, snapshots@, next as nat);
            let ghost earlier = points@;
            proof {
                exports_are_bounded(config, admitted, snapshots@, next as nat);
                assert(export_after(config, admitted, snapshots@, (next + 1) as nat) == export_step(
                    config,
                    before,
                    snapshots@[next as int],
                    next as int,
                ));
            }
            let snapshot = &snapshots[next];
            if !snapshot.is_skipped(self.skip_empty_cumulative) {
                observed = observed + 1;
                if points.len() >= self.max_points_per_export {
                    dropped = dropped + 1;
                } else {
                    let point = self.point_of(timestamp_unix_nanos, snapshot);
                    let series = point.series_fingerprint().get();
                    if !self.admitted_series.contains(&series) && self.admitted_series.len()
                        >= self.max_series {
                        dropped = dropped + 1;
                        dropped_cardinality = dropped_cardinality + 1;
                    } else {
                        self.admitted_series.insert(series);
                        points.push(point);
                        proof {
                            exports_are_bounded(config, admitted, snapshots@, (next + 1) as nat);
                            let after = export_after(
                                config,
                                admitted,
                                snapshots@,
                                (next + 1) as nat,
                            );
                            assert(after.taken =~= before.taken.push(next as int));
                            assert(self.admitted_series@ =~= after.admitted);
                            assert forall|k: int| 0 <= k < points@.len() implies point_shows(
                                #[trigger] points@[k],
                                config,
                                timestamp_unix_nanos,
                                snapshots@[after.taken[k]],
                            ) by {
                                if k < earlier.len() {
                                    assert(points@[k] == earlier[k]);
                                }
                            }
                        }
                    }
                }
            }
            next = next + 1;
        }
        proof {
            exports_are_bounded(config, admitted, snapshots@, snapshots@.len());
        }
        let appended = points.len();
        let request = if appended == 0 {
            None
        } else {
            match runtime.append_metric_points(points, self.wait_for_index) {
                Ok(request) => Some(request),
                Err(error) => {
                    self.exporting = false;
                    return Err(error);
                },
            }
        };
        Ok(
            PendingExport {
                report: FastTelemetryExportReport {
                    observed_points: observed,
                    dropped_points: dropped,
                    dropped_cardinality_points: dropped_cardinality,
                    admitted_series: self.admitted_series.len(),
                    appended_points: appended,
                    append_batches: 0,
                    skipped_busy: false,
                },
                request,
            },
        )
    }

    /// Starts an export at the current wall-clock time, given as the time since
    /// the Unix epoch.
    pub fn export_once(
        &mut self,
        runtime: &EmbeddedTelemetryRuntime,
        since_epoch: TimeSpan,
        snapshots: &Vec<MetricSnapshot>,
    ) -> (pending: Result<PendingExport, LokiApiError>)
        requires
            old(self).well_formed(),
        ensures
            final(self).well_formed(),
            final(self).settings() == old(self).settings(),
            if old(self).busy() {
                &&& final(self).busy()
                &&& final(self).admitted() == old(self).admitted()
                &&& pending matches Ok(pending) && pending.report == busy_report()
                    && pending.request is None
            } else {
                let progress = export_after(
                    old(self).settings(),
                    old(self).admitted(),
                    snapshots@,
                    snapshots@.len(),
                );
                &&& final(self).admitted() == progress.admitted
                &&& match pending {
                    Ok(pending) => {
                        &&& final(self).busy()
                        &&& progress.taken.len() > 0 ==> runtime.admission(Ok(()))
                        &&& pending.exports(
                            old(self).settings(),
                            old(self).admitted(),
                            unix_nanos(since_epoch),
                            snapshots@,
                        )
                    },
                    Err(error) => {
                        &&& !final(self).busy()
                        &&& progress.taken.len() > 0
                        &&& runtime.admission(Err(error))
                    },
                }
            },
    {
        let now = if since_epoch.nanos > u64::MAX as u128 {
            u64::MAX
        } else {
            since_epoch.nanos as u64
        };
        self.export_once_at(runtime, now, snapshots)
    }

    /// Ends the export under way with the number of batches that the store
    /// acknowledged, or with its error. `report` is that of this export, not of
    /// one that was skipped.
    pub fn finish_export(
        &mut self,
        report: FastTelemetryExportReport,
        acknowledged: Result<usize, LokiApiError>,
    ) -> (finished: Result<FastTelemetryExportReport, LokiApiError>)
        requires
            old(self).well_formed(),
            old(self).busy(),
            !report.skipped_busy,
        ensures
            final(self).well_formed(),
            final(self).settings() == old(self).settings(),
            final(self).admitted() == old(self).admitted(),
            !final(self).busy(),
            match acknowledged {
                Ok(batches) => finished == Ok::<FastTelemetryExportReport, LokiApiError>(
                    (FastTelemetryExportReport { append_batches: batches, ..report }),
                ),
                Err(error) => finished == Err::<FastTelemetryExportReport, LokiApiError>(error),
            },
    {
        self.exporting = false;
        match acknowledged {
            Ok(batches) => {
                let mut finished = report;
                finished.append_batches = batches;
                Ok(finished)
            },
            Err(error) => Err(error),
        }
    }
}

} // verus!
