//! Budgets and lifecycle of a telemetry engine embedded in one process.

use vstd::prelude::*;

use crate::error::{ApiErrorKind, LokiApiError};
use crate::ingest::OtlpLogEvent;
use crate::native_query::{MetricQuery, NativeQuery, TraceQuery};
use crate::records::{DurableMetricPoint, DurableSpan};
use crate::text::has_suffix_char;

verus! {

/// A length of time in nanoseconds.
#[derive(Debug, Clone, Copy, PartialEq, Eq, PartialOrd, Ord, Hash, Structural)]
pub struct TimeSpan {
    /// Nanoseconds.
    pub nanos: u128,
}

impl TimeSpan {
    /// A number of seconds.
    pub fn from_secs(seconds: u64) -> (span: Self)
        ensures
            span.nanos == seconds * 1_000_000_000,
    {
        Self { nanos: seconds as u128 * 1_000_000_000 }
    }

    /// A number of microseconds.
    pub fn from_micros(micros: u64) -> (span: Self)
        ensures
            span.nanos == micros * 1_000,
    {
        Self { nanos: micros as u128 * 1_000 }
    }

    /// No time at all.
    pub fn zero() -> (span: Self)
        ensures
            span.nanos == 0,
    {
        Self { nanos: 0 }
    }

    /// Whether this is no time at all.
    pub fn is_zero(self) -> (zero: bool)
        ensures
            zero == (self.nanos == 0),
    {
        self.nanos == 0
    }
}

/// Remote object store that holds immutable groups.
#[derive(Debug, PartialEq, Eq)]
pub struct S3ObjectStoreConfig {
    /// Bucket name.
    pub bucket: String,
    /// Key prefix.
    pub prefix: String,
    /// Region, where the endpoint does not imply it.
    pub region: Option<String>,
    /// Endpoint other than the default one.
    pub endpoint: Option<String>,
    /// Whether plain HTTP is allowed.
    pub allow_http: bool,
    /// Whether the bucket is part of the host name.
    pub virtual_hosted_style: bool,
}

/// Fate of raw records that leave an embedded node's recent local window.
#[derive(Debug, PartialEq, Eq)]
pub enum EmbeddedEvictionPolicy {
    /// Permanently delete expired or over-budget immutable groups.
    Delete,
    /// Commit immutable groups to S3, then keep only an LRU-bounded local cache.
    OffloadToS3(S3ObjectStoreConfig),
}

/// Limits of one physical stripe.
#[derive(Debug, Clone, Copy, PartialEq, Eq, Structural)]
pub struct StripeConfig {
    /// Bytes of compression dictionaries that a stripe keeps.
    pub dictionary_cache_bytes: usize,
}

/// Durable local WAL, index, and object-tier configuration.
#[derive(Debug, PartialEq, Eq)]
pub struct DurableTelemetryConfig {
    /// Directory of local immutable objects, where they are kept locally.
    pub object_store_directory: Option<String>,
    /// Directory of the WAL and the indexes.
    pub data_directory: String,
    /// Remote object store, where objects are kept remotely.
    pub s3_object_store: Option<S3ObjectStoreConfig>,
    /// Whether a recovery journal is written.
    pub recovery_journal: bool,
    /// Age beyond which records are reclaimed.
    pub retention: Option<TimeSpan>,
    /// Number of shards.
    pub shard_count: u32,
    /// Partitions of each tenant.
    pub tenant_partitions: u32,
    /// Time that an append waits for company.
    pub append_linger: TimeSpan,
    /// Limits of one stripe.
    pub stripe: StripeConfig,
    /// Time that an acknowledgement waits for the index.
    pub indexed_ack_timeout: TimeSpan,
}

/// Limits of one signal.
#[derive(Debug, Clone, Copy, PartialEq, Eq, Structural)]
pub struct SignalLimits {
    /// Bytes of the in-memory head on each stripe.
    pub head_memory_bytes_per_stripe: usize,
}

/// Limits of the three signals.
#[derive(Debug, Clone, Copy, PartialEq, Eq, Structural)]
pub struct SignalLimitSet {
    /// Limits of logs.
    pub logs: SignalLimits,
    /// Limits of traces.
    pub traces: SignalLimits,
    /// Limits of metrics.
    pub metrics: SignalLimits,
}

/// One SSD cache with its memory tier.
#[derive(Debug, Clone, Copy, PartialEq, Eq, Structural)]
pub struct SsdCacheConfig {
    /// Bytes on the SSD.
    pub max_bytes: u64,
    /// Bytes of one cached chunk.
    pub chunk_bytes: u64,
    /// Most bytes read at once.
    pub max_read_bytes: u64,
    /// Bytes of raw chunks in memory.
    pub memory_bytes: u64,
    /// Bytes of parsed chunks in memory.
    pub parsed_memory_bytes: u64,
}

/// Bounded hot-memory, journal, and SSD-cache limits.
#[derive(Debug, Clone, Copy, PartialEq, Eq, Structural)]
pub struct DurableTelemetryLimits {
    /// Limits of each signal.
    pub signals: SignalLimitSet,
    /// Cache of metadata and index objects.
    pub control_cache: SsdCacheConfig,
    /// Cache of compressed payload ranges.
    pub payload_cache: SsdCacheConfig,
    /// Bytes of immutable payload that one partition keeps locally.
    pub max_object_payload_bytes_per_partition: Option<u64>,
    /// Number of lifetime rollup series.
    pub max_lifetime_rollup_series: Option<u64>,
    /// Bytes of lifetime rollups.
    pub max_lifetime_rollup_bytes: u64,
}

/// Immutable group sizing used for local deletion or S3 publication.
#[derive(Debug, Clone, Copy, PartialEq, Eq, Structural)]
pub struct ObjectTierConfig {
    /// Group size that is aimed at.
    pub target_group_payload_bytes: u64,
    /// Group size that is never exceeded.
    pub max_group_payload_bytes: u64,
    /// Time between retiring and deleting an object.
    pub retirement_grace: TimeSpan,
}

/// What the engine assumes where a host says nothing.
#[derive(Debug, Clone, Copy, PartialEq, Eq, Structural)]
pub struct EngineDefaults {
    /// Limits of one stripe.
    pub stripe: StripeConfig,
    /// Limits of the local engine.
    pub local_limits: DurableTelemetryLimits,
    /// Group sizing.
    pub object_tier: ObjectTierConfig,
}

/// Lifecycle configuration for a one-process embedded runtime.
#[derive(Debug, PartialEq, Eq)]
pub struct EmbeddedTelemetryConfig {
    /// Durable local WAL, index, and object-tier configuration.
    pub store: DurableTelemetryConfig,
    /// Bounded hot-memory, journal, and SSD-cache limits.
    pub local_limits: DurableTelemetryLimits,
    /// Immutable group sizing used for local deletion or S3 publication.
    pub object_tier: ObjectTierConfig,
    /// Optional bound for engine-controlled resident telemetry state.
    ///
    /// Transient request decoding and query result allocations are outside this
    /// storage-state budget.
    pub max_ram_bytes: Option<u64>,
    /// Optional bound for local immutable payload and SSD-cache bytes.
    ///
    /// Filesystem metadata and one in-flight WAL/spool group may temporarily
    /// exceed this steady-state data budget.
    pub max_ssd_bytes: Option<u64>,
    /// Upper bound applied when draining the embedded store during shutdown.
    pub shutdown_flush_timeout: TimeSpan,
}

/// A path below a directory.
pub open spec fn path_below(directory: Seq<char>, leaf: Seq<char>) -> Seq<char> {
    if directory.len() == 0 || directory.last() == '/' {
        directory + leaf
    } else {
        directory + seq!['/'] + leaf
    }
}

/// The larger of two numbers.
pub open spec fn larger(a: int, b: int) -> int {
    if a >= b {
        a
    } else {
        b
    }
}

/// The smaller of two numbers.
pub open spec fn smaller(a: int, b: int) -> int {
    if a <= b {
        a
    } else {
        b
    }
}

/// A number that stops at the largest 64-bit one.
pub open spec fn capped(value: int) -> int {
    smaller(value, u64::MAX as int)
}

/// A number that stops at zero.
pub open spec fn floored(value: int) -> int {
    larger(value, 0)
}

fn at_least(value: u64, least: u64) -> (result: u64)
    ensures
        result == larger(value as int, least as int),
{
    if value >= least {
        value
    } else {
        least
    }
}

fn at_most(value: u64, most: u64) -> (result: u64)
    ensures
        result == smaller(value as int, most as int),
{
    if value <= most {
        value
    } else {
        most
    }
}

fn saturating_times(a: u64, b: u64) -> (result: u64)
    ensures
        result == capped(a * b),
{
    assert(0 <= a * b <= u64::MAX * u64::MAX) by (nonlinear_arith)
        requires
            0 <= a <= u64::MAX,
            0 <= b <= u64::MAX,
    ;
    let product = a as u128 * b as u128;
    if product > u64::MAX as u128 {
        u64::MAX
    } else {
        product as u64
    }
}

fn saturating_sum(a: u64, b: u64) -> (result: u64)
    ensures
        result == capped(a + b),
{
    if a > u64::MAX - b {
        u64::MAX
    } else {
        a + b
    }
}

fn saturating_difference(a: u64, b: u64) -> (result: u64)
    ensures
        result == floored(a - b),
{
    if a < b {
        0
    } else {
        a - b
    }
}

/// A 64-bit number that stops at the largest address.
pub open spec fn addressable(value: int) -> int {
    smaller(value, usize::MAX as int)
}

fn usize_from_u64(value: u64) -> (result: usize)
    ensures
        result == addressable(value as int),
{
    if value > usize::MAX as u64 {
        usize::MAX
    } else {
        value as usize
    }
}

/// How a RAM budget is divided.
pub struct RamPlan {
    /// Head bytes of logs on each stripe.
    pub logs: int,
    /// Head bytes of traces on each stripe.
    pub traces: int,
    /// Head bytes of metrics on each stripe.
    pub metrics: int,
    /// Dictionary bytes on each stripe.
    pub dictionaries: int,
    /// Raw bytes of the control cache.
    pub control: int,
    /// Parsed bytes of the control cache.
    pub parsed: int,
    /// Raw bytes of the payload cache.
    pub payload: int,
}

/// Stripes that share a budget.
pub open spec fn stripes_of(shard_count: u32, tenant_partitions: u32) -> int {
    larger(smaller(shard_count as int, tenant_partitions as int), 1)
}

/// Two thirds to the heads, one twelfth to the dictionaries, the rest to the
/// caches.
pub open spec fn ram_plan(max_bytes: u64, stripes: int) -> RamPlan {
    let head = capped(max_bytes * 2) / 3 / stripes;
    let logs = larger(head / 8, 1);
    let traces = larger(head / 4, 1);
    let metrics = larger(floored(floored(head - logs) - traces), 1);
    let dictionaries = larger(max_bytes as int / 12 / stripes, 1);
    let heads = capped(stripes * capped(capped(logs + traces) + metrics));
    let cache = floored(floored(max_bytes - heads) - capped(stripes * dictionaries));
    let control = cache / 4;
    RamPlan {
        logs,
        traces,
        metrics,
        dictionaries,
        control: capped(control * 3) / 4,
        parsed: control / 4,
        payload: floored(cache - control),
    }
}

/// How an SSD budget is divided.
pub struct SsdPlan {
    /// Bytes of lifetime rollups.
    pub rollups: int,
    /// Bytes of the control cache.
    pub control: int,
    /// Bytes of the payload cache.
    pub payload: int,
    /// Bytes of immutable payload on each partition, where it is kept locally.
    pub per_partition: Option<int>,
}

/// One sixteenth to the rollups. Remote objects leave the rest to the caches;
/// local ones take three quarters of the whole and leave a sixteenth to each
/// cache.
pub open spec fn ssd_plan(max_bytes: u64, remote: bool, tenant_partitions: u32) -> SsdPlan {
    let rollups = larger(max_bytes as int / 16, 1);
    if remote {
        let managed = floored(max_bytes - rollups);
        let control = larger(managed / 8, 1);
        SsdPlan {
            rollups,
            control,
            payload: larger(floored(managed - control), 1),
            per_partition: None,
        }
    } else {
        let cache = larger(max_bytes as int / 16, 1);
        let objects = capped(max_bytes * 3) / 4;
        let catalogs = larger(tenant_partitions * 3, 1);
        SsdPlan {
            rollups,
            control: cache,
            payload: cache,
            per_partition: Some(larger(objects / catalogs, 1)),
        }
    }
}

/// A cache with another size on the SSD: a chunk fits the cache and a read
/// covers a chunk.
pub open spec fn resized_cache(config: SsdCacheConfig, max_bytes: int) -> SsdCacheConfig {
    let max = larger(max_bytes, 1);
    let chunk = larger(smaller(config.chunk_bytes as int, max), 1);
    SsdCacheConfig {
        max_bytes: max as u64,
        chunk_bytes: chunk as u64,
        max_read_bytes: larger(config.max_read_bytes as int, chunk) as u64,
        ..config
    }
}

fn configure_cache_ssd(config: SsdCacheConfig, max_bytes: u64) -> (resized: SsdCacheConfig)
    ensures
        resized == resized_cache(config, max_bytes as int),
{
    let max = at_least(max_bytes, 1);
    let chunk = at_least(at_most(config.chunk_bytes, max), 1);
    SsdCacheConfig {
        max_bytes: max,
        chunk_bytes: chunk,
        max_read_bytes: at_least(config.max_read_bytes, chunk),
        memory_bytes: config.memory_bytes,
        parsed_memory_bytes: config.parsed_memory_bytes,
    }
}

/// Limits under a RAM plan.
pub open spec fn limits_in_ram(limits: DurableTelemetryLimits, plan: RamPlan) -> DurableTelemetryLimits {
    DurableTelemetryLimits {
        signals: SignalLimitSet {
            logs: SignalLimits { head_memory_bytes_per_stripe: addressable(plan.logs) as usize },
            traces: SignalLimits { head_memory_bytes_per_stripe: addressable(plan.traces) as usize },
            metrics: SignalLimits {
                head_memory_bytes_per_stripe: addressable(plan.metrics) as usize,
            },
        },
        control_cache: SsdCacheConfig {
            memory_bytes: plan.control as u64,
            parsed_memory_bytes: plan.parsed as u64,
            ..limits.control_cache
        },
        payload_cache: SsdCacheConfig {
            memory_bytes: plan.payload as u64,
            parsed_memory_bytes: 0,
            ..limits.payload_cache
        },
        ..limits
    }
}

/// Limits under an SSD plan.
pub open spec fn limits_on_ssd(limits: DurableTelemetryLimits, plan: SsdPlan) -> DurableTelemetryLimits {
    DurableTelemetryLimits {
        control_cache: resized_cache(limits.control_cache, plan.control),
        payload_cache: resized_cache(limits.payload_cache, plan.payload),
        max_object_payload_bytes_per_partition: match plan.per_partition {
            Some(bytes) => Some(bytes as u64),
            None => None,
        },
        max_lifetime_rollup_bytes: plan.rollups as u64,
        ..limits
    }
}

/// Group sizing under an SSD plan.
pub open spec fn tier_on_ssd(tier: ObjectTierConfig, plan: SsdPlan) -> ObjectTierConfig {
    match plan.per_partition {
        None => tier,
        Some(bytes) => {
            let max = smaller(tier.max_group_payload_bytes as int, bytes);
            ObjectTierConfig {
                max_group_payload_bytes: max as u64,
                target_group_payload_bytes: smaller(
                    tier.target_group_payload_bytes as int,
                    larger(max / 2, 1),
                ) as u64,
                ..tier
            }
        },
    }
}

impl EmbeddedTelemetryConfig {
    /// Stripes that share the RAM budget.
    pub open spec fn stripes(&self) -> int {
        stripes_of(self.store.shard_count, self.store.tenant_partitions)
    }

    /// RAM that the components may take.
    pub open spec fn ram_total(&self) -> int {
        let limits = self.local_limits;
        let heads = capped(
            capped(
                capped(
                    limits.signals.logs.head_memory_bytes_per_stripe
                        + limits.signals.traces.head_memory_bytes_per_stripe,
                ) + limits.signals.metrics.head_memory_bytes_per_stripe,
            ) * self.stripes(),
        );
        let caches = capped(
            capped(
                capped(limits.control_cache.memory_bytes + limits.control_cache.parsed_memory_bytes)
                    + limits.payload_cache.memory_bytes,
            ) + limits.payload_cache.parsed_memory_bytes,
        );
        let dictionaries = capped(self.store.stripe.dictionary_cache_bytes * self.stripes());
        capped(capped(heads + dictionaries) + caches)
    }

    /// SSD bytes that the components may take.
    pub open spec fn ssd_total(&self) -> int {
        let limits = self.local_limits;
        let caches = capped(limits.control_cache.max_bytes + limits.payload_cache.max_bytes);
        let objects = match limits.max_object_payload_bytes_per_partition {
            Some(bytes) => capped(bytes * capped(self.store.tenant_partitions * 3)),
            None => 0,
        };
        let rollups = if limits.max_lifetime_rollup_series is Some {
            limits.max_lifetime_rollup_bytes as int
        } else {
            0
        };
        capped(capped(caches + objects) + rollups)
    }

    /// What is said of a configuration that is refused.
    pub open spec fn complaint(&self) -> Option<Seq<char>> {
        if self.shutdown_flush_timeout.nanos == 0 {
            Some("embedded shutdown_flush_timeout must be nonzero"@)
        } else if self.max_ram_bytes == Some(0u64) || self.max_ssd_bytes == Some(0u64) {
            Some("embedded RAM and SSD budgets must be nonzero"@)
        } else if self.max_ram_bytes is Some && self.ram_total() > self.max_ram_bytes->0 {
            Some("embedded component RAM limits exceed max_ram_bytes"@)
        } else if self.max_ssd_bytes is Some && self.ssd_total() > self.max_ssd_bytes->0 {
            Some("embedded component SSD limits exceed max_ssd_bytes"@)
        } else {
            None
        }
    }

    /// Creates an embedded runtime configuration around one durable store.
    pub fn new(store: DurableTelemetryConfig, defaults: &EngineDefaults) -> (config: Self)
        ensures
            config.store == store,
            config.local_limits == (DurableTelemetryLimits {
                max_lifetime_rollup_series: Some(100_000),
                ..defaults.local_limits
            }),
            config.object_tier == defaults.object_tier,
            config.max_ram_bytes is None,
            config.max_ssd_bytes is None,
            config.shutdown_flush_timeout.nanos == 30_000_000_000,
    {
        let mut local_limits = defaults.local_limits;
        local_limits.max_lifetime_rollup_series = Some(100_000);
        Self {
            store,
            local_limits,
            object_tier: defaults.object_tier,
            max_ram_bytes: None,
            max_ssd_bytes: None,
            shutdown_flush_timeout: TimeSpan::from_secs(30),
        }
    }

    /// Whether this is the bounded configuration of a directory.
    pub open spec fn bounded_as(
        &self,
        data_directory: Seq<char>,
        retention: TimeSpan,
        eviction: EmbeddedEvictionPolicy,
        defaults: EngineDefaults,
    ) -> bool {
        &&& self.store.data_directory@ == data_directory
        &&& match eviction {
            EmbeddedEvictionPolicy::Delete => {
                &&& self.store.object_store_directory matches Some(objects) && objects@
                    == path_below(data_directory, "objects"@)
                &&& self.store.s3_object_store is None
                &&& self.object_tier == (ObjectTierConfig {
                    retirement_grace: TimeSpan { nanos: 0 },
                    ..defaults.object_tier
                })
            },
            EmbeddedEvictionPolicy::OffloadToS3(s3) => {
                &&& self.store.object_store_directory is None
                &&& self.store.s3_object_store == Some(s3)
                &&& self.object_tier == defaults.object_tier
            },
        }
        &&& !self.store.recovery_journal
        &&& self.store.retention == Some(retention)
        &&& self.store.shard_count == 1
        &&& self.store.tenant_partitions == 1
        &&& self.store.append_linger.nanos == 250_000
        &&& self.store.stripe == defaults.stripe
        &&& self.store.indexed_ack_timeout.nanos == 30_000_000_000
        &&& self.local_limits == (DurableTelemetryLimits {
            max_lifetime_rollup_series: Some(100_000),
            ..defaults.local_limits
        })
        &&& self.max_ram_bytes is None
        &&& self.max_ssd_bytes is None
        &&& self.shutdown_flush_timeout.nanos == 30_000_000_000
    }

    /// Creates a one-shard, SSD-backed embedded configuration with time-based
    /// retention.
    ///
    /// The local immutable object directory lives below `data_directory`, so
    /// completed blocks can replace raw WAL packs while remaining queryable.
    pub fn bounded_local(data_directory: String, retention: TimeSpan, defaults: &EngineDefaults) -> (config:
        Self)
        ensures
            config.bounded_as(
                data_directory@,
                retention,
                EmbeddedEvictionPolicy::Delete,
                *defaults,
            ),
    {
        Self::bounded(data_directory, retention, EmbeddedEvictionPolicy::Delete, defaults)
    }

    /// Creates a one-shard embedded store with a recent local window and an
    /// explicit eviction destination.
    pub fn bounded(
        data_directory: String,
        retention: TimeSpan,
        eviction: EmbeddedEvictionPolicy,
        defaults: &EngineDefaults,
    ) -> (config: Self)
        ensures
            config.bounded_as(data_directory@, retention, eviction, *defaults),
    {
        let ghost directory = data_directory@;
        let (object_store_directory, s3_object_store) = match eviction {
            EmbeddedEvictionPolicy::Delete => {
                let mut objects = data_directory.clone();
                if !data_directory.as_str().is_empty() && !has_suffix_char(&data_directory, '/') {
                    objects.push('/');
                }
                objects.append("objects");
                assert(objects@ =~= path_below(directory, "objects"@));
                (Some(objects), None)
            },
            EmbeddedEvictionPolicy::OffloadToS3(s3) => (None, Some(s3)),
        };
        let local = s3_object_store.is_none();
        let mut config = Self::new(
            DurableTelemetryConfig {
                object_store_directory,
                data_directory,
                s3_object_store,
                recovery_journal: false,
                retention: Some(retention),
                shard_count: 1,
                tenant_partitions: 1,
                append_linger: TimeSpan::from_micros(250),
                stripe: defaults.stripe,
                indexed_ack_timeout: TimeSpan::from_secs(30),
            },
            defaults,
        );
        if local {
            // One process owns the directory and the tier protects active
            // readers with generation leases, so no grace is needed before
            // expired local objects are deleted.
            config.object_tier.retirement_grace = TimeSpan::zero();
        }
        config
    }

    /// Sets a total bound for storage-engine telemetry state in RAM.
    ///
    /// Two thirds is divided across log, trace, and metric heads on every
    /// physical stripe, one twelfth is reserved for compression dictionaries,
    /// and the remainder is divided across verified payload and control caches.
    pub fn with_max_ram_bytes(self, max_bytes: u64) -> (config: Self)
        ensures
            config.max_ram_bytes == Some(max_bytes),
            config.local_limits == limits_in_ram(
                self.local_limits,
                ram_plan(max_bytes, self.stripes()),
            ),
            config.store == (DurableTelemetryConfig {
                stripe: StripeConfig {
                    dictionary_cache_bytes: addressable(
                        ram_plan(max_bytes, self.stripes()).dictionaries,
                    ) as usize,
                },
                ..self.store
            }),
            config.object_tier == self.object_tier,
            config.max_ssd_bytes == self.max_ssd_bytes,
            config.shutdown_flush_timeout == self.shutdown_flush_timeout,
    {
        let mut config = self;
        config.max_ram_bytes = Some(max_bytes);
        let stripes = at_least(
            at_most(config.store.shard_count as u64, config.store.tenant_partitions as u64),
            1,
        );
        let head_total = saturating_times(max_bytes, 2) / 3;
        let head_per_stripe = head_total / stripes;
        let logs = at_least(head_per_stripe / 8, 1);
        let traces = at_least(head_per_stripe / 4, 1);
        let metrics = at_least(
            saturating_difference(saturating_difference(head_per_stripe, logs), traces),
            1,
        );
        config.local_limits.signals.logs.head_memory_bytes_per_stripe = usize_from_u64(logs);
        config.local_limits.signals.traces.head_memory_bytes_per_stripe = usize_from_u64(traces);
        config.local_limits.signals.metrics.head_memory_bytes_per_stripe = usize_from_u64(metrics);
        let dictionary_per_stripe = at_least(max_bytes / 12 / stripes, 1);
        config.store.stripe.dictionary_cache_bytes = usize_from_u64(dictionary_per_stripe);
        let charged_heads = saturating_times(
            stripes,
            saturating_sum(saturating_sum(logs, traces), metrics),
        );
        let charged_dictionaries = saturating_times(stripes, dictionary_per_stripe);
        let cache_total = saturating_difference(
            saturating_difference(max_bytes, charged_heads),
            charged_dictionaries,
        );
        let control_total = cache_total / 4;
        config.local_limits.control_cache.memory_bytes = saturating_times(control_total, 3) / 4;
        config.local_limits.control_cache.parsed_memory_bytes = control_total / 4;
        config.local_limits.payload_cache.memory_bytes = saturating_difference(
            cache_total,
            control_total,
        );
        config.local_limits.payload_cache.parsed_memory_bytes = 0;
        config
    }

    /// Sets the steady-state local data budget and derives cache/group limits.
    ///
    /// Local-delete mode reserves three quarters for immutable payloads, one
    /// eighth for caches, one sixteenth for lifetime rollups, and the remainder
    /// for catalog/filesystem overhead. S3 mode assigns the remaining managed
    /// budget to local caches because authoritative immutable objects are remote.
    pub fn with_max_ssd_bytes(self, max_bytes: u64) -> (config: Self)
        ensures
            config.max_ssd_bytes == Some(max_bytes),
            config.local_limits == limits_on_ssd(
                self.local_limits,
                ssd_plan(
                    max_bytes,
                    self.store.s3_object_store is Some,
                    self.store.tenant_partitions,
                ),
            ),
            config.object_tier == tier_on_ssd(
                self.object_tier,
                ssd_plan(
                    max_bytes,
                    self.store.s3_object_store is Some,
                    self.store.tenant_partitions,
                ),
            ),
            config.store == self.store,
            config.max_ram_bytes == self.max_ram_bytes,
            config.shutdown_flush_timeout == self.shutdown_flush_timeout,
    {
        let mut config = self;
        config.max_ssd_bytes = Some(max_bytes);
        let archive = config.store.s3_object_store.is_some();
        let rollup_bytes = at_least(max_bytes / 16, 1);
        config.local_limits.max_lifetime_rollup_bytes = rollup_bytes;
        if archive {
            let managed = saturating_difference(max_bytes, rollup_bytes);
            let control = at_least(managed / 8, 1);
            let payload = at_least(saturating_difference(managed, control), 1);
            config.local_limits.control_cache = configure_cache_ssd(
                config.local_limits.control_cache,
                control,
            );
            config.local_limits.payload_cache = configure_cache_ssd(
                config.local_limits.payload_cache,
                payload,
            );
            config.local_limits.max_object_payload_bytes_per_partition = None;
        } else {
            let cache = at_least(max_bytes / 16, 1);
            config.local_limits.control_cache = configure_cache_ssd(
                config.local_limits.control_cache,
                cache,
            );
            config.local_limits.payload_cache = configure_cache_ssd(
                config.local_limits.payload_cache,
                cache,
            );
            let objects = saturating_times(max_bytes, 3) / 4;
            let catalogs = at_least(config.store.tenant_partitions as u64 * 3, 1);
            let per_partition = at_least(objects / catalogs, 1);
            config.local_limits.max_object_payload_bytes_per_partition = Some(per_partition);
            let max_group = at_most(config.object_tier.max_group_payload_bytes, per_partition);
            config.object_tier.max_group_payload_bytes = max_group;
            config.object_tier.target_group_payload_bytes = at_most(
                config.object_tier.target_group_payload_bytes,
                at_least(max_group / 2, 1),
            );
        }
        config
    }

    /// Checks the configuration as a whole.
    pub fn validate(&self) -> (checked: Result<(), LokiApiError>)
        ensures
            match checked {
                Ok(_) => self.complaint() is None,
                Err(error) => self.complaint() is Some && error.says(
                    ApiErrorKind::Configuration,
                    self.complaint()->0,
                ),
            },
    {
        if self.shutdown_flush_timeout.is_zero() {
            return Err(
                LokiApiError::configuration("embedded shutdown_flush_timeout must be nonzero"),
            );
        }
        if is_zero_budget(self.max_ram_bytes) || is_zero_budget(self.max_ssd_bytes) {
            return Err(LokiApiError::configuration("embedded RAM and SSD budgets must be nonzero"));
        }
        let limits = &self.local_limits;
        if let Some(max_bytes) = self.max_ram_bytes {
            let stripes = at_least(
                at_most(self.store.shard_count as u64, self.store.tenant_partitions as u64),
                1,
            );
            let heads = saturating_times(
                saturating_sum(
                    saturating_sum(
                        limits.signals.logs.head_memory_bytes_per_stripe as u64,
                        limits.signals.traces.head_memory_bytes_per_stripe as u64,
                    ),
                    limits.signals.metrics.head_memory_bytes_per_stripe as u64,
                ),
                stripes,
            );
            let caches = saturating_sum(
                saturating_sum(
                    saturating_sum(
                        limits.control_cache.memory_bytes,
                        limits.control_cache.parsed_memory_bytes,
                    ),
                    limits.payload_cache.memory_bytes,
                ),
                limits.payload_cache.parsed_memory_bytes,
            );
            let dictionaries = saturating_times(
                self.store.stripe.dictionary_cache_bytes as u64,
                stripes,
            );
            let total = saturating_sum(saturating_sum(heads, dictionaries), caches);
            assert(total == self.ram_total());
            if total > max_bytes {
                return Err(
                    LokiApiError::configuration(
                        "embedded component RAM limits exceed max_ram_bytes",
                    ),
                );
            }
        }
        if let Some(max_bytes) = self.max_ssd_bytes {
            let caches = saturating_sum(
                limits.control_cache.max_bytes,
                limits.payload_cache.max_bytes,
            );
            let objects = match limits.max_object_payload_bytes_per_partition {
                Some(bytes) => saturating_times(bytes, self.store.tenant_partitions as u64 * 3),
                None => 0,
            };
            let rollups = if limits.max_lifetime_rollup_series.is_some() {
                limits.max_lifetime_rollup_bytes
            } else {
                0
            };
            let total = saturating_sum(saturating_sum(caches, objects), rollups);
            assert(total == self.ssd_total());
            if total > max_bytes {
                return Err(
                    LokiApiError::configuration(
                        "embedded component SSD limits exceed max_ssd_bytes",
                    ),
                );
            }
        }
        Ok(())
    }
}

fn is_zero_budget(budget: Option<u64>) -> (zero: bool)
    ensures
        zero == (budget == Some(0u64)),
{
    match budget {
        Some(bytes) => bytes == 0,
        None => false,
    }
}

impl EmbeddedTelemetryConfig {
    /// Sets both embedded storage-state budgets.
    pub fn with_storage_budgets(self, max_ram_bytes: u64, max_ssd_bytes: u64) -> (config: Self)
        ensures
            config.budgeted_from(&self, max_ram_bytes, max_ssd_bytes),
    {
        self.with_max_ram_bytes(max_ram_bytes).with_max_ssd_bytes(max_ssd_bytes)
    }

    /// Whether this is `before` under both budgets.
    pub open spec fn budgeted_from(&self, before: &Self, max_ram_bytes: u64, max_ssd_bytes: u64) -> bool {
        let ram = ram_plan(max_ram_bytes, before.stripes());
        let ssd = ssd_plan(
            max_ssd_bytes,
            before.store.s3_object_store is Some,
            before.store.tenant_partitions,
        );
        &&& self.max_ram_bytes == Some(max_ram_bytes)
        &&& self.max_ssd_bytes == Some(max_ssd_bytes)
        &&& self.local_limits == limits_on_ssd(limits_in_ram(before.local_limits, ram), ssd)
        &&& self.object_tier == tier_on_ssd(before.object_tier, ssd)
        &&& self.store == (DurableTelemetryConfig {
            stripe: StripeConfig {
                dictionary_cache_bytes: addressable(ram.dictionaries) as usize,
            },
            ..before.store
        })
        &&& self.shutdown_flush_timeout == before.shutdown_flush_timeout
    }

    /// Replaces the complete bounded local-storage policy.
    pub fn with_local_limits(self, limits: DurableTelemetryLimits) -> (config: Self)
        ensures
            config == (Self { local_limits: limits, ..self }),
    {
        let mut config = self;
        config.local_limits = limits;
        config
    }

    /// Sets the hot in-memory head limit for logs, traces, and metrics on each
    /// physical stripe.
    pub fn with_head_memory_bytes_per_stripe(
        self,
        logs: usize,
        traces: usize,
        metrics: usize,
    ) -> (config: Self)
        ensures
            config == (Self {
                local_limits: DurableTelemetryLimits {
                    signals: SignalLimitSet {
                        logs: SignalLimits { head_memory_bytes_per_stripe: logs },
                        traces: SignalLimits { head_memory_bytes_per_stripe: traces },
                        metrics: SignalLimits { head_memory_bytes_per_stripe: metrics },
                    },
                    ..self.local_limits
                },
                ..self
            }),
    {
        let mut config = self;
        config.local_limits.signals.logs.head_memory_bytes_per_stripe = logs;
        config.local_limits.signals.traces.head_memory_bytes_per_stripe = traces;
        config.local_limits.signals.metrics.head_memory_bytes_per_stripe = metrics;
        config
    }

    /// Sets independent SSD-cache policies for metadata/index objects and
    /// compressed payload ranges.
    pub fn with_ssd_caches(self, control_cache: SsdCacheConfig, payload_cache: SsdCacheConfig) -> (config:
        Self)
        ensures
            config == (Self {
                local_limits: DurableTelemetryLimits {
                    control_cache,
                    payload_cache,
                    ..self.local_limits
                },
                ..self
            }),
    {
        let mut config = self;
        config.local_limits.control_cache = control_cache;
        config.local_limits.payload_cache = payload_cache;
        config
    }

    /// Sets the bounded shutdown flush timeout.
    pub fn with_shutdown_flush_timeout(self, timeout: TimeSpan) -> (config: Self)
        ensures
            config == (Self { shutdown_flush_timeout: timeout, ..self }),
    {
        let mut config = self;
        config.shutdown_flush_timeout = timeout;
        config
    }
}

/// A RAM budget of at least four bytes for each stripe is never exceeded by
/// the components that share it.
pub proof fn ram_budget_is_kept(
    before: EmbeddedTelemetryConfig,
    after: EmbeddedTelemetryConfig,
    max_bytes: u64,
)
    requires
        max_bytes >= 4 * before.stripes(),
        after.local_limits == limits_in_ram(
            before.local_limits,
            ram_plan(max_bytes, before.stripes()),
        ),
        after.store.shard_count == before.store.shard_count,
        after.store.tenant_partitions == before.store.tenant_partitions,
        after.store.stripe.dictionary_cache_bytes == addressable(
            ram_plan(max_bytes, before.stripes()).dictionaries,
        ),
    ensures
        after.ram_total() <= max_bytes,
{
    let stripes = before.stripes();
    let plan = ram_plan(max_bytes, stripes);
    let total = capped(max_bytes * 2) / 3;
    let head = total / stripes;
    let dictionary = max_bytes as int / 12 / stripes;
    assert(stripes >= 1);
    assert(head * stripes <= total) by (nonlinear_arith)
        requires
            stripes >= 1,
            head == total / stripes,
    ;
    assert(0 <= head) by (nonlinear_arith)
        requires
            total >= 0,
            stripes >= 1,
            head == total / stripes,
    ;
    let twelfth = max_bytes as int / 12;
    assert(dictionary * stripes <= twelfth) by (nonlinear_arith)
        requires
            stripes >= 1,
            dictionary == twelfth / stripes,
    ;
    assert(0 <= dictionary) by (nonlinear_arith)
        requires
            twelfth >= 0,
            stripes >= 1,
            dictionary == twelfth / stripes,
    ;
    let heads = plan.logs + plan.traces + plan.metrics;
    assert(heads == larger(head, 3));
    let head_bytes = stripes * heads;
    let dictionary_bytes = stripes * plan.dictionaries;
    if head >= 3 {
        assert(head_bytes == head * stripes) by (nonlinear_arith)
            requires
                head_bytes == stripes * heads,
                heads == head,
        ;
    } else {
        assert(head_bytes == 3 * stripes) by (nonlinear_arith)
            requires
                head_bytes == stripes * heads,
                heads == 3,
        ;
    }
    if dictionary >= 1 {
        assert(dictionary_bytes == dictionary * stripes) by (nonlinear_arith)
            requires
                dictionary_bytes == stripes * plan.dictionaries,
                plan.dictionaries == dictionary,
        ;
    } else {
        assert(dictionary_bytes == stripes) by (nonlinear_arith)
            requires
                dictionary_bytes == stripes * plan.dictionaries,
                plan.dictionaries == 1,
        ;
    }
    assert(head >= 3 ==> total >= 3 * stripes) by (nonlinear_arith)
        requires
            head * stripes <= total,
            stripes >= 1,
    ;
    assert(head_bytes + dictionary_bytes <= max_bytes);
    assert(plan.control + plan.parsed + plan.payload <= max_bytes - head_bytes - dictionary_bytes);
    let limits = after.local_limits;
    let charged = limits.signals.logs.head_memory_bytes_per_stripe
        + limits.signals.traces.head_memory_bytes_per_stripe
        + limits.signals.metrics.head_memory_bytes_per_stripe;
    assert(0 <= charged <= heads);
    assert(charged * stripes <= head_bytes) by (nonlinear_arith)
        requires
            charged <= heads,
            stripes >= 1,
            head_bytes == stripes * heads,
    ;
    let kept = after.store.stripe.dictionary_cache_bytes;
    assert(kept * stripes <= dictionary_bytes) by (nonlinear_arith)
        requires
            kept <= plan.dictionaries,
            stripes >= 1,
            dictionary_bytes == stripes * plan.dictionaries,
    ;
    assert(0 <= charged * stripes) by (nonlinear_arith)
        requires
            0 <= charged,
            stripes >= 1,
    ;
    assert(0 <= kept * stripes) by (nonlinear_arith)
        requires
            0 <= kept,
            stripes >= 1,
    ;
}

/// An SSD budget of at least sixteen bytes, and of four bytes for each
/// partition where objects are kept locally, is never exceeded by the
/// components that share it. With remote objects the caches and the rollups
/// take the whole budget.
pub proof fn ssd_budget_is_kept(
    before: EmbeddedTelemetryConfig,
    after: EmbeddedTelemetryConfig,
    max_bytes: u64,
)
    requires
        max_bytes >= 16,
        before.store.s3_object_store is None ==> max_bytes >= 4 * before.store.tenant_partitions,
        after.local_limits == limits_on_ssd(
            before.local_limits,
            ssd_plan(
                max_bytes,
                before.store.s3_object_store is Some,
                before.store.tenant_partitions,
            ),
        ),
        after.store.tenant_partitions == before.store.tenant_partitions,
    ensures
        after.ssd_total() <= max_bytes,
        before.store.s3_object_store is Some ==> after.local_limits.control_cache.max_bytes
            + after.local_limits.payload_cache.max_bytes
            + after.local_limits.max_lifetime_rollup_bytes == max_bytes,
{
    let partitions = before.store.tenant_partitions;
    let plan = ssd_plan(max_bytes, before.store.s3_object_store is Some, partitions);
    if before.store.s3_object_store is None {
        let objects = capped(max_bytes * 3) / 4;
        let catalogs = larger(partitions * 3, 1);
        let share = objects / catalogs;
        assert(share * catalogs <= objects) by (nonlinear_arith)
            requires
                catalogs >= 1,
                share == objects / catalogs,
        ;
        let per = plan.per_partition->0;
        assert(0 <= share <= objects) by (nonlinear_arith)
            requires
                objects >= 0,
                catalogs >= 1,
                share == objects / catalogs,
        ;
        let charged = per * (partitions * 3);
        if share >= 1 {
            assert(charged <= objects) by (nonlinear_arith)
                requires
                    charged == per * (partitions * 3),
                    per == share,
                    share >= 1,
                    share * catalogs <= objects,
                    partitions * 3 <= catalogs,
            ;
        } else {
            assert(charged == partitions * 3) by (nonlinear_arith)
                requires
                    charged == per * (partitions * 3),
                    per == 1,
            ;
        }
        assert(0 <= charged) by (nonlinear_arith)
            requires
                charged == per * (partitions * 3),
                per >= 1,
                partitions >= 0,
        ;
    }
}

/// Observable lifecycle state of [`EmbeddedTelemetryRuntime`].
#[derive(Debug, Clone, Copy, PartialEq, Eq, Structural)]
pub enum EmbeddedTelemetryState {
    /// The durable store is recovering local state.
    Recovering,
    /// Recovery succeeded; exporters may now be attached before traffic starts.
    AwaitingAttachment,
    /// Ingestion and query consumers may use the runtime.
    Ready,
    /// The runtime is draining and does not accept new attachment work.
    Draining,
    /// The durable store has been flushed and closed by its owner.
    Stopped,
}

impl EmbeddedTelemetryState {
    /// The state with a given number.
    pub open spec fn numbered(value: u8) -> Self {
        if value == 1 {
            Self::AwaitingAttachment
        } else if value == 2 {
            Self::Ready
        } else if value == 3 {
            Self::Draining
        } else if value == 4 {
            Self::Stopped
        } else {
            Self::Recovering
        }
    }

    /// Reads a state from its number.
    pub fn from_u8(value: u8) -> (state: Self)
        ensures
            state == Self::numbered(value),
    {
        match value {
            1 => Self::AwaitingAttachment,
            2 => Self::Ready,
            3 => Self::Draining,
            4 => Self::Stopped,
            _ => Self::Recovering,
        }
    }

    /// The number of this state.
    pub fn to_u8(self) -> (value: u8)
        ensures
            Self::numbered(value) == self,
            value <= 4,
    {
        match self {
            Self::Recovering => 0,
            Self::AwaitingAttachment => 1,
            Self::Ready => 2,
            Self::Draining => 3,
            Self::Stopped => 4,
        }
    }
}

/// Work that the runtime asks its durable store to do.
#[derive(Debug, PartialEq, Eq)]
pub enum StoreRequest {
    /// Append log events of a tenant.
    AppendLogs {
        /// Tenant of the events.
        tenant: String,
        /// Events to append.
        events: Vec<OtlpLogEvent>,
        /// Whether the acknowledgement waits for the index.
        wait_for_index: bool,
    },
    /// Append spans.
    AppendTraces {
        /// Spans to append.
        spans: Vec<DurableSpan>,
        /// Whether the acknowledgement waits for the index.
        wait_for_index: bool,
    },
    /// Append metric points.
    AppendMetrics {
        /// Points to append.
        points: Vec<DurableMetricPoint>,
        /// Whether the acknowledgement waits for the index.
        wait_for_index: bool,
    },
    /// Flush blocks and reclaim what has left the retention window.
    CompactRetention,
    /// Flush every durable boundary within this time.
    Flush(TimeSpan),
}

/// A read that the runtime hands to its durable store.
#[derive(Debug, PartialEq, Eq)]
pub enum StoreQuery {
    /// Entries of the log index.
    Logs(NativeQuery),
    /// Spans of the trace index.
    Traces(TraceQuery),
    /// Points of the metric index.
    Metrics(MetricQuery),
    /// Lifetime outcomes of the metrics of a tenant.
    LifetimeRollups {
        /// Tenant of the metrics.
        tenant: String,
        /// Name of the metric, where one is named.
        name: Option<String>,
    },
}

/// What happens to a runtime.
pub enum LifecycleEvent {
    /// The host reports that its exporters are attached.
    MarkReady,
    /// The host starts to drain.
    Drain,
    /// The drained store was flushed, or was not.
    Flushed(bool),
}

/// The state after an event.
pub open spec fn next_state(state: EmbeddedTelemetryState, event: LifecycleEvent) -> EmbeddedTelemetryState {
    match event {
        LifecycleEvent::MarkReady => if state == EmbeddedTelemetryState::AwaitingAttachment {
            EmbeddedTelemetryState::Ready
        } else {
            state
        },
        LifecycleEvent::Drain => if state == EmbeddedTelemetryState::Stopped {
            EmbeddedTelemetryState::Stopped
        } else {
            EmbeddedTelemetryState::Draining
        },
        LifecycleEvent::Flushed(flushed) => if flushed && state
            == EmbeddedTelemetryState::Draining {
            EmbeddedTelemetryState::Stopped
        } else {
            state
        },
    }
}

/// The state after several events.
pub open spec fn state_after(state: EmbeddedTelemetryState, events: Seq<LifecycleEvent>) -> EmbeddedTelemetryState
    decreases events.len(),
{
    if events.len() == 0 {
        state
    } else {
        next_state(state_after(state, events.drop_last()), events.last())
    }
}

/// What a durable store is opened with.
#[derive(Debug)]
pub struct StoreOpening<'a> {
    /// Configuration of the store.
    pub store: &'a DurableTelemetryConfig,
    /// Object tier behind it.
    pub object_tier: &'a ObjectTierConfig,
    /// Limits of what stays local.
    pub local_limits: &'a DurableTelemetryLimits,
}

impl<'a> StoreOpening<'a> {
    /// Whether the store of a configuration is opened.
    pub open spec fn opens(self, config: EmbeddedTelemetryConfig) -> bool {
        &&& *self.store == config.store
        &&& *self.object_tier == config.object_tier
        &&& *self.local_limits == config.local_limits
    }
}

/// One-owner embedded runtime suitable for a local node telemetry deployment.
///
/// The host opens the durable store, attaches its exporters, marks the runtime
/// ready, and drains it before shutdown. The runtime decides what the store is
/// asked to do at each point.
#[derive(Debug)]
pub struct EmbeddedTelemetryRuntime {
    shutdown_flush_timeout: TimeSpan,
    state: EmbeddedTelemetryState,
}

impl EmbeddedTelemetryRuntime {
    /// The lifecycle state.
    pub closed spec fn lifecycle(&self) -> EmbeddedTelemetryState {
        self.state
    }

    /// The time that a final flush may take.
    pub closed spec fn flush_timeout(&self) -> TimeSpan {
        self.shutdown_flush_timeout
    }

    /// Checks a configuration and says what to open: nothing where it is refused.
    pub fn plan_open(config: &EmbeddedTelemetryConfig) -> (plan: Result<
        StoreOpening<'_>,
        LokiApiError,
    >)
        ensures
            match plan {
                Ok(plan) => config.complaint() is None && plan.opens(*config),
                Err(error) => config.complaint() matches Some(complaint) && error.says(
                    ApiErrorKind::Configuration,
                    complaint,
                ),
            },
    {
        config.validate()?;
        Ok(
            StoreOpening {
                store: &config.store,
                object_tier: &config.object_tier,
                local_limits: &config.local_limits,
            },
        )
    }

    /// Checks a configuration, opens and recovers its store with `open_store`, and
    /// puts a runtime around it. A refused configuration opens no store: only with
    /// an accepted one may `open_store` be called.
    pub fn open<'a, F: FnOnce(StoreOpening<'a>) -> Result<(), LokiApiError>>(
        config: &'a EmbeddedTelemetryConfig,
        open_store: F,
    ) -> (runtime: Result<Self, LokiApiError>)
        requires
            config.complaint() is None ==> forall|plan: StoreOpening<'a>| #[trigger]
                plan.opens(*config) ==> call_requires(open_store, (plan,)),
        ensures
            match config.complaint() {
                Some(complaint) => runtime matches Err(error) && error.says(
                    ApiErrorKind::Configuration,
                    complaint,
                ),
                None => exists|plan: StoreOpening<'a>, opened: Result<(), LokiApiError>|
                    plan.opens(*config) && #[trigger] call_ensures(open_store, (plan,), opened)
                        && match runtime {
                        Ok(runtime) => opened is Ok && runtime.lifecycle()
                            == EmbeddedTelemetryState::AwaitingAttachment
                            && runtime.flush_timeout() == config.shutdown_flush_timeout,
                        Err(error) => opened == Err::<(), LokiApiError>(error),
                    },
            },
    {
        let plan = Self::plan_open(config)?;
        let opened = open_store(plan);
        assert(plan.opens(*config) && call_ensures(open_store, (plan,), opened));
        match opened {
            Ok(_) => {},
            Err(error) => {
                return Err(error);
            },
        }
        Ok(
            Self {
                shutdown_flush_timeout: config.shutdown_flush_timeout,
                state: EmbeddedTelemetryState::AwaitingAttachment,
            },
        )
    }

    /// Runs an exporter-attachment operation while the runtime is not yet ready.
    ///
    /// A failed operation leaves the runtime unavailable, so callers cannot
    /// accidentally start a partially attached embedded node. In any other state
    /// the operation is not run: only while attachment is awaited may it be called.
    pub fn attach<T, F: FnOnce() -> Result<T, LokiApiError>>(&self, attach: F) -> (attached: Result<
        T,
        LokiApiError,
    >)
        requires
            self.lifecycle() == EmbeddedTelemetryState::AwaitingAttachment ==> call_requires(
                attach,
                (),
            ),
        ensures
            if self.lifecycle() == EmbeddedTelemetryState::AwaitingAttachment {
                call_ensures(attach, (), attached)
            } else {
                attached matches Err(error) && error.says(
                    ApiErrorKind::Configuration,
                    "embedded telemetry accepts exporter attachment only before readiness"@,
                )
            },
    {
        if self.state != EmbeddedTelemetryState::AwaitingAttachment {
            return Err(
                LokiApiError::configuration(
                    "embedded telemetry accepts exporter attachment only before readiness",
                ),
            );
        }
        attach()
    }

    /// Marks the recovered, fully attached runtime ready for host traffic.
    pub fn mark_ready(&mut self) -> (marked: Result<(), LokiApiError>)
        ensures
            final(self).lifecycle() == next_state(old(self).lifecycle(), LifecycleEvent::MarkReady),
            final(self).flush_timeout() == old(self).flush_timeout(),
            match marked {
                Ok(_) => old(self).lifecycle() == EmbeddedTelemetryState::AwaitingAttachment,
                Err(error) => old(self).lifecycle() != EmbeddedTelemetryState::AwaitingAttachment
                    && error.says(
                    ApiErrorKind::Configuration,
                    "embedded telemetry is not awaiting attachment"@,
                ),
            },
    {
        if self.state != EmbeddedTelemetryState::AwaitingAttachment {
            return Err(
                LokiApiError::configuration("embedded telemetry is not awaiting attachment"),
            );
        }
        self.state = EmbeddedTelemetryState::Ready;
        Ok(())
    }

    /// Returns the current lifecycle state.
    pub fn state(&self) -> (state: EmbeddedTelemetryState)
        ensures
            state == self.lifecycle(),
    {
        self.state
    }

    /// Whether direct ingestion is admitted, and what is said where it is not.
    pub open spec fn admission(&self, admitted: Result<(), LokiApiError>) -> bool {
        match admitted {
            Ok(_) => self.lifecycle() == EmbeddedTelemetryState::Ready,
            Err(error) => self.lifecycle() != EmbeddedTelemetryState::Ready && error.says(
                ApiErrorKind::Configuration,
                "embedded telemetry is not ready to accept direct ingestion"@,
            ),
        }
    }

    fn begin_ingest(&self) -> (admitted: Result<(), LokiApiError>)
        ensures
            self.admission(admitted),
    {
        if self.state != EmbeddedTelemetryState::Ready {
            return Err(
                LokiApiError::configuration(
                    "embedded telemetry is not ready to accept direct ingestion",
                ),
            );
        }
        Ok(())
    }

    /// Queries the recovered log index, whatever the lifecycle state: reading
    /// needs no attached exporter and goes on after a drain.
    pub fn query_native(&self, query: NativeQuery) -> (read: StoreQuery)
        ensures
            read == StoreQuery::Logs(query),
    {
        StoreQuery::Logs(query)
    }

    /// Queries the recovered trace index, whatever the lifecycle state.
    pub fn query_traces(&self, query: TraceQuery) -> (read: StoreQuery)
        ensures
            read == StoreQuery::Traces(query),
    {
        StoreQuery::Traces(query)
    }

    /// Queries the recovered metric index, whatever the lifecycle state.
    pub fn query_metrics(&self, query: MetricQuery) -> (read: StoreQuery)
        ensures
            read == StoreQuery::Metrics(query),
    {
        StoreQuery::Metrics(query)
    }

    /// Asks for the durable lifetime outcomes of the metrics of a tenant, of
    /// one name where it is given.
    pub fn query_lifetime_metric_rollups(&self, tenant: &str, name: Option<&str>) -> (read:
        StoreQuery)
        ensures
            read matches StoreQuery::LifetimeRollups { tenant: asked, name: named } && asked@
                == tenant@ && match (name, named) {
                (Some(name), Some(named)) => named@ == name@,
                (None, None) => true,
                _ => false,
            },
    {
        StoreQuery::LifetimeRollups {
            tenant: tenant.to_owned(),
            name: match name {
                Some(name) => Some(name.to_owned()),
                None => None,
            },
        }
    }

    /// Directly appends normalized logs to this process's embedded store.
    pub fn append_log_events(&self, tenant: &str, events: Vec<OtlpLogEvent>, wait_for_index: bool) -> (request:
        Result<StoreRequest, LokiApiError>)
        ensures
            match request {
                Ok(request) => self.admission(Ok(())) && (request matches StoreRequest::AppendLogs {
                    tenant: named,
                    events: taken,
                    wait_for_index: waits,
                } && named@ == tenant@ && taken == events && waits == wait_for_index),
                Err(error) => self.admission(Err(error)),
            },
    {
        self.begin_ingest()?;
        Ok(StoreRequest::AppendLogs { tenant: tenant.to_owned(), events, wait_for_index })
    }

    /// Directly appends normalized spans to this process's embedded store.
    pub fn append_trace_events(&self, events: Vec<DurableSpan>, wait_for_index: bool) -> (request: Result<
        StoreRequest,
        LokiApiError,
    >)
        ensures
            match request {
                Ok(request) => self.admission(Ok(())) && request == (StoreRequest::AppendTraces {
                    spans: events,
                    wait_for_index,
                }),
                Err(error) => self.admission(Err(error)),
            },
    {
        self.begin_ingest()?;
        Ok(StoreRequest::AppendTraces { spans: events, wait_for_index })
    }

    /// Directly appends one normalized metric point to this process's embedded
    /// store.
    pub fn append_metric_point(&self, point: DurableMetricPoint, wait_for_index: bool) -> (request: Result<
        StoreRequest,
        LokiApiError,
    >)
        ensures
            match request {
                Ok(request) => self.admission(Ok(())) && (request matches StoreRequest::AppendMetrics {
                    points,
                    wait_for_index: waits,
                } && points@ == seq![point] && waits == wait_for_index),
                Err(error) => self.admission(Err(error)),
            },
    {
        self.begin_ingest()?;
        let mut points: Vec<DurableMetricPoint> = Vec::new();
        points.push(point);
        assert(points@ =~= seq![point]);
        Ok(StoreRequest::AppendMetrics { points, wait_for_index })
    }

    /// Directly appends normalized metrics to this process's embedded store.
    pub fn append_metric_points(&self, points: Vec<DurableMetricPoint>, wait_for_index: bool) -> (request:
        Result<StoreRequest, LokiApiError>)
        ensures
            match request {
                Ok(request) => self.admission(Ok(())) && request == (StoreRequest::AppendMetrics {
                    points,
                    wait_for_index,
                }),
                Err(error) => self.admission(Err(error)),
            },
    {
        self.begin_ingest()?;
        Ok(StoreRequest::AppendMetrics { points, wait_for_index })
    }

    /// Flushes pending local blocks and reclaims complete WAL/object groups
    /// older than the configured retention window.
    pub fn compact_retention(&self) -> (request: Result<StoreRequest, LokiApiError>)
        ensures
            match request {
                Ok(request) => self.admission(Ok(())) && request == StoreRequest::CompactRetention,
                Err(error) => self.admission(Err(error)),
            },
    {
        self.begin_ingest()?;
        Ok(StoreRequest::CompactRetention)
    }

    /// Stops new host work and asks for a flush of every current durable
    /// boundary. A runtime whose store was flushed before stays stopped.
    pub fn drain(&mut self) -> (request: Option<StoreRequest>)
        ensures
            final(self).lifecycle() == next_state(old(self).lifecycle(), LifecycleEvent::Drain),
            final(self).flush_timeout() == old(self).flush_timeout(),
            request == (if old(self).lifecycle() == EmbeddedTelemetryState::Stopped {
                None
            } else {
                Some(StoreRequest::Flush(old(self).flush_timeout()))
            }),
    {
        if self.state == EmbeddedTelemetryState::Stopped {
            return None;
        }
        self.state = EmbeddedTelemetryState::Draining;
        Some(StoreRequest::Flush(self.shutdown_flush_timeout))
    }

    /// Ends a drain with what the flush gave.
    pub fn finish_drain(&mut self, flushed: Result<(), LokiApiError>) -> (drained: Result<
        (),
        LokiApiError,
    >)
        requires
            old(self).lifecycle() == EmbeddedTelemetryState::Draining,
        ensures
            final(self).lifecycle() == next_state(
                old(self).lifecycle(),
                LifecycleEvent::Flushed(flushed is Ok),
            ),
            final(self).flush_timeout() == old(self).flush_timeout(),
            drained == flushed,
    {
        if flushed.is_ok() {
            self.state = EmbeddedTelemetryState::Stopped;
        }
        flushed
    }
}

/// Once a runtime drains it never admits ingestion or attachment again,
/// whatever happens to it.
pub proof fn drained_runtimes_stay_closed(
    state: EmbeddedTelemetryState,
    before: Seq<LifecycleEvent>,
    after: Seq<LifecycleEvent>,
)
    ensures
        state_after(state, before.push(LifecycleEvent::Drain) + after)
            == EmbeddedTelemetryState::Draining || state_after(
            state,
            before.push(LifecycleEvent::Drain) + after,
        ) == EmbeddedTelemetryState::Stopped,
    decreases after.len(),
{
    let head = before.push(LifecycleEvent::Drain);
    if after.len() == 0 {
        assert(head + after =~= head);
    } else {
        drained_runtimes_stay_closed(state, before, after.drop_last());
        assert((head + after).drop_last() =~= head + after.drop_last());
        assert((head + after).last() == after.last());
    }
}

/// Once a drain was flushed the runtime is stopped, whatever happens to it later,
/// further drains among it.
pub proof fn flushed_runtimes_stay_stopped(
    state: EmbeddedTelemetryState,
    before: Seq<LifecycleEvent>,
    after: Seq<LifecycleEvent>,
)
    ensures
        state_after(
            state,
            before.push(LifecycleEvent::Drain).push(LifecycleEvent::Flushed(true)) + after,
        ) == EmbeddedTelemetryState::Stopped,
    decreases after.len(),
{
    let drained = before.push(LifecycleEvent::Drain);
    let head = drained.push(LifecycleEvent::Flushed(true));
    if after.len() == 0 {
        assert(head + after =~= head);
        assert(head.drop_last() =~= drained);
        assert(drained.drop_last() =~= before);
        assert(state_after(state, drained) == next_state(
            state_after(state, before),
            LifecycleEvent::Drain,
        ));
        assert(state_after(state, head) == next_state(
            state_after(state, drained),
            LifecycleEvent::Flushed(true),
        ));
    } else {
        flushed_runtimes_stay_stopped(state, before, after.drop_last());
        assert((head + after).drop_last() =~= head + after.drop_last());
        assert((head + after).last() == after.last());
    }
}

/// A runtime is ready only if its host marked it so, and no earlier event was
/// a drain.
pub proof fn readiness_is_announced(state: EmbeddedTelemetryState, events: Seq<LifecycleEvent>)
    requires
        state == EmbeddedTelemetryState::Recovering || state
            == EmbeddedTelemetryState::AwaitingAttachment,
        state_after(state, events) == EmbeddedTelemetryState::Ready,
    ensures
        events.contains(LifecycleEvent::MarkReady),
        !events.contains(LifecycleEvent::Drain),
{
    lemma_readiness(state, events);
}

proof fn lemma_readiness(state: EmbeddedTelemetryState, events: Seq<LifecycleEvent>)
    requires
        state == EmbeddedTelemetryState::Recovering || state
            == EmbeddedTelemetryState::AwaitingAttachment,
    ensures
        state_after(state, events) == EmbeddedTelemetryState::Ready ==> events.contains(
            LifecycleEvent::MarkReady,
        ) && !events.contains(LifecycleEvent::Drain),
        state_after(state, events) == EmbeddedTelemetryState::Recovering || state_after(state, events)
            == EmbeddedTelemetryState::AwaitingAttachment ==> !events.contains(
            LifecycleEvent::Drain,
        ),
    decreases events.len(),
{
    if events.len() > 0 {
        let shorter = events.drop_last();
        lemma_readiness(state, shorter);
        assert(events =~= shorter.push(events.last()));
        assert(events[events.len() - 1] == events.last());
        if shorter.contains(LifecycleEvent::MarkReady) {
            let i = choose|i: int|
                0 <= i < shorter.len() && shorter[i] == LifecycleEvent::MarkReady;
            assert(events[i] == LifecycleEvent::MarkReady);
        }
        if events.contains(LifecycleEvent::Drain) && !shorter.contains(LifecycleEvent::Drain) {
            let i = choose|i: int| 0 <= i < events.len() && events[i] == LifecycleEvent::Drain;
            if i < shorter.len() {
                assert(shorter[i] == LifecycleEvent::Drain);
            }
        }
    }
}

} // verus!
