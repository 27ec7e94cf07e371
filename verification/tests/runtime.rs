use shard_telemetry::attributes::{TelemetryAttribute, TelemetryValue};
use shard_telemetry::dictionary::CompressionCohortId;
use shard_telemetry::embedded::{
    DurableTelemetryConfig, DurableTelemetryLimits, EmbeddedEvictionPolicy,
    EmbeddedTelemetryConfig, EmbeddedTelemetryRuntime, EmbeddedTelemetryState, EngineDefaults,
    ObjectTierConfig, S3ObjectStoreConfig, SignalLimitSet, SignalLimits, SsdCacheConfig,
    StoreQuery, StoreRequest, StripeConfig, TimeSpan,
};
use shard_telemetry::error::{ApiErrorKind, LokiApiError};
use shard_telemetry::fast_telemetry::{
    CumulativeBucket, DistributionReading, FastTelemetryConfig, FastTelemetryExporter,
    HistogramReading, MetricLabel, MetricReading, MetricSnapshot, SparseBucket,
};
use shard_telemetry::ingest::OtlpLogEvent;
use shard_telemetry::native_query::{
    client_query, MetricQuery, NativeQuery, NativeQueryDirection, QueryArguments, ResponseHead,
    TraceQuery,
};
use shard_telemetry::records::{
    ExponentialHistogramValue, HistogramCount, MetricValue, NumberValue, TraceId,
};
use shard_telemetry::string_map::StringMap;

fn defaults() -> EngineDefaults {
    let signal = SignalLimits { head_memory_bytes_per_stripe: 16 << 20 };
    let cache = SsdCacheConfig {
        max_bytes: 64 << 20,
        chunk_bytes: 1 << 20,
        max_read_bytes: 8 << 20,
        memory_bytes: 8 << 20,
        parsed_memory_bytes: 8 << 20,
    };
    EngineDefaults {
        stripe: StripeConfig { dictionary_cache_bytes: 8 << 20 },
        local_limits: DurableTelemetryLimits {
            signals: SignalLimitSet { logs: signal, traces: signal, metrics: signal },
            control_cache: cache,
            payload_cache: cache,
            max_object_payload_bytes_per_partition: None,
            max_lifetime_rollup_series: None,
            max_lifetime_rollup_bytes: 16 << 20,
        },
        object_tier: ObjectTierConfig {
            target_group_payload_bytes: 8 << 20,
            max_group_payload_bytes: 64 << 20,
            retirement_grace: TimeSpan::from_secs(60),
        },
    }
}

fn runtime() -> EmbeddedTelemetryRuntime {
    let config = EmbeddedTelemetryConfig::new(
        DurableTelemetryConfig {
            data_directory: "data".to_owned(),
            object_store_directory: None,
            s3_object_store: None,
            recovery_journal: false,
            retention: None,
            shard_count: 1,
            tenant_partitions: 1,
            append_linger: TimeSpan::from_micros(250),
            stripe: defaults().stripe,
            indexed_ack_timeout: TimeSpan::from_secs(30),
        },
        &defaults(),
    );
    EmbeddedTelemetryRuntime::open(&config, |_| Ok(())).expect("runtime opens")
}

#[test]
fn embedded_budget_builder_bounds_local_and_s3_managed_storage() {
    let local = EmbeddedTelemetryConfig::bounded_local(
        "unused-budget-config".to_owned(),
        TimeSpan::from_secs(5 * 60),
        &defaults(),
    )
    .with_storage_budgets(256 * 1024 * 1024, 1024 * 1024 * 1024);
    local.validate().expect("local budgets validate");
    assert!(local.local_limits.max_object_payload_bytes_per_partition.is_some());
    assert_eq!(local.object_tier.retirement_grace, TimeSpan::zero());

    let archived = EmbeddedTelemetryConfig::bounded(
        "unused-s3-budget-config".to_owned(),
        TimeSpan::from_secs(60 * 60),
        EmbeddedEvictionPolicy::OffloadToS3(S3ObjectStoreConfig {
            bucket: "telemetry-archive".into(),
            prefix: "device-a".into(),
            region: Some("us-east-1".into()),
            endpoint: None,
            allow_http: false,
            virtual_hosted_style: false,
        }),
        &defaults(),
    )
    .with_storage_budgets(256 * 1024 * 1024, 1024 * 1024 * 1024);
    archived.validate().expect("S3 budgets validate");
    assert!(archived.store.object_store_directory.is_none());
    assert!(archived.store.s3_object_store.is_some());
    assert!(archived.local_limits.max_object_payload_bytes_per_partition.is_none());
    assert_eq!(
        archived.local_limits.control_cache.max_bytes
            + archived.local_limits.payload_cache.max_bytes
            + archived.local_limits.max_lifetime_rollup_bytes,
        1024 * 1024 * 1024
    );
}

#[test]
fn direct_embedded_log_path_is_lifecycle_checked() {
    let mut runtime = runtime();
    let event =
        || OtlpLogEvent::new(42, "embedded fast path", Vec::new(), CompressionCohortId::new(0));
    assert_eq!(runtime.state(), EmbeddedTelemetryState::AwaitingAttachment);
    assert!(runtime.append_log_events("tenant-a", vec![event()], true).is_err());
    runtime.mark_ready().expect("runtime ready");
    assert!(runtime.mark_ready().is_err());
    match runtime.append_log_events("tenant-a", vec![event()], true).expect("direct append") {
        StoreRequest::AppendLogs { tenant, events, wait_for_index } => {
            assert_eq!(tenant, "tenant-a");
            assert_eq!(events, vec![event()]);
            assert!(wait_for_index);
        }
        other => panic!("unexpected request {other:?}"),
    }
    assert_eq!(runtime.compact_retention().unwrap(), StoreRequest::CompactRetention);
    let attached: Result<(), LokiApiError> = runtime.attach(|| Ok(()));
    assert_eq!(attached.unwrap_err().kind, ApiErrorKind::Configuration);

    assert!(matches!(runtime.drain(), Some(StoreRequest::Flush(_))));
    assert_eq!(runtime.state(), EmbeddedTelemetryState::Draining);
    runtime.finish_drain(Ok(())).expect("drain");
    assert_eq!(runtime.state(), EmbeddedTelemetryState::Stopped);
    assert!(runtime.drain().is_none());
    assert_eq!(runtime.state(), EmbeddedTelemetryState::Stopped);
    assert!(runtime.drain().is_none());
    assert_eq!(runtime.state(), EmbeddedTelemetryState::Stopped);
    assert!(runtime.append_log_events("tenant-a", vec![event()], true).is_err());
}

#[test]
fn reads_are_handed_on_in_every_state() {
    let mut runtime = runtime();
    let logs = || NativeQuery {
        tenant: "tenant-a".to_owned(),
        labels: StringMap::new(),
        terms: vec!["fast".to_owned()],
        start_timestamp_unix_nanos: None,
        end_timestamp_unix_nanos: None,
        limit: 10,
        direction: NativeQueryDirection::OldestFirst,
    };
    let traces = || TraceQuery {
        tenant: "tenant-a".to_owned(),
        trace_id: Some(TraceId::from_bytes(&[7; 16]).expect("trace ID")),
        limit: 10,
    };
    let metrics = || MetricQuery { tenant: "tenant-a".to_owned(), series: None, limit: 10 };
    assert_eq!(runtime.query_native(logs()), StoreQuery::Logs(logs()));
    runtime.mark_ready().expect("runtime ready");
    assert_eq!(runtime.query_traces(traces()), StoreQuery::Traces(traces()));
    assert!(matches!(runtime.drain(), Some(StoreRequest::Flush(_))));
    runtime.finish_drain(Ok(())).expect("drain");
    assert_eq!(runtime.query_metrics(metrics()), StoreQuery::Metrics(metrics()));
    assert_eq!(
        runtime.query_lifetime_metric_rollups("tenant-a", Some("requests_total")),
        StoreQuery::LifetimeRollups {
            tenant: "tenant-a".to_owned(),
            name: Some("requests_total".to_owned()),
        }
    );
    assert_eq!(
        runtime.query_lifetime_metric_rollups("tenant-a", None),
        StoreQuery::LifetimeRollups { tenant: "tenant-a".to_owned(), name: None }
    );
}

#[test]
fn query_client_builds_its_query_and_checks_the_answer() {
    let pair = |key: &str, value: &str| (key.to_owned(), value.to_owned());
    let arguments = |limit, iterations, newest_first| QueryArguments {
        tenant: "tenant-a".to_owned(),
        labels: vec![pair("app", "a"), pair("env", "prod"), pair("app", "b")],
        terms: vec!["slow".to_owned()],
        start: Some(3),
        end: None,
        limit,
        newest_first,
        iterations,
    };
    let query = client_query(arguments(100, 1, true)).unwrap();
    assert_eq!(query.labels.len(), 2);
    assert_eq!(query.labels.get("app").map(String::as_str), Some("b"));
    assert_eq!(query.labels.get("env").map(String::as_str), Some("prod"));
    assert_eq!(query.direction, NativeQueryDirection::NewestFirst);
    assert_eq!((query.start_timestamp_unix_nanos, query.end_timestamp_unix_nanos), (Some(3), None));
    assert_eq!((query.tenant.as_str(), query.limit), ("tenant-a", 100));
    assert_eq!(query.terms, vec!["slow".to_owned()]);
    let oldest = client_query(arguments(1, 1, false)).unwrap();
    assert_eq!(oldest.direction, NativeQueryDirection::OldestFirst);
    let refusal = "limit and iterations must be nonzero";
    assert_eq!(client_query(arguments(0, 1, true)).unwrap_err(), refusal);
    assert_eq!(client_query(arguments(1, 0, true)).unwrap_err(), refusal);

    let head = ResponseHead { is_response: true, request_id: 4, is_query: true, is_ok: true };
    assert_eq!(head.accept(4, "Ok", ""), Ok(()));
    assert_eq!(head.accept(5, "Ok", "x").unwrap_err(), "query failed with status Ok: x");
    let refused = ResponseHead { is_response: true, request_id: 4, is_query: true, is_ok: false };
    assert_eq!(
        refused.accept(4, "Invalid", "no such tenant").unwrap_err(),
        "query failed with status Invalid: no such tenant"
    );
}

#[test]
fn lifecycle_states_have_numbers() {
    for value in 0..5 {
        assert_eq!(EmbeddedTelemetryState::from_u8(value).to_u8(), value);
    }
    let mut config =
        EmbeddedTelemetryConfig::bounded_local("d".to_owned(), TimeSpan::from_secs(1), &defaults());
    config.shutdown_flush_timeout = TimeSpan::zero();
    assert!(config.validate().is_err());
    let refused = EmbeddedTelemetryRuntime::open(&config, |_| panic!("no store is opened"));
    assert_eq!(refused.unwrap_err().kind, ApiErrorKind::Configuration);
    assert!(EmbeddedTelemetryRuntime::plan_open(&config).is_err());
    let config = config.with_shutdown_flush_timeout(TimeSpan::from_secs(1));
    assert_eq!(
        EmbeddedTelemetryRuntime::open(&config, |_| Err(LokiApiError::internal("no disk")))
            .unwrap_err()
            .message,
        "no disk"
    );
    let mut opened = 0;
    let runtime = EmbeddedTelemetryRuntime::open(&config, |plan| {
        assert_eq!(*plan.store, config.store);
        assert_eq!(*plan.object_tier, config.object_tier);
        assert_eq!(*plan.local_limits, config.local_limits);
        opened += 1;
        Ok(())
    })
    .expect("runtime opens");
    assert_eq!((opened, runtime.state()), (1, EmbeddedTelemetryState::AwaitingAttachment));
}

fn snapshots() -> Vec<MetricSnapshot> {
    let snapshot = |name: &str, unit: Option<&str>, reading| MetricSnapshot {
        scope: "api".to_owned(),
        name: name.to_owned(),
        help: String::new(),
        unit: unit.map(str::to_owned),
        labels: vec![MetricLabel { name: "route".to_owned(), value: "/".to_owned() }],
        reading,
    };
    vec![
        snapshot("requests_total", None, MetricReading::Counter(3)),
        snapshot("in_flight", None, MetricReading::GaugeInteger(7)),
        snapshot(
            "latency",
            Some("ms"),
            MetricReading::Histogram(HistogramReading {
                count: 2,
                sum_bits: 55f64.to_bits(),
                buckets: vec![
                    CumulativeBucket { bound_bits: 10f64.to_bits(), cumulative_count: 1 },
                    CumulativeBucket { bound_bits: f64::INFINITY.to_bits(), cumulative_count: 2 },
                ],
            }),
        ),
        snapshot(
            "payload_bytes",
            None,
            MetricReading::Distribution(DistributionReading {
                count: 2,
                sum_bits: 16f64.to_bits(),
                zero_count: 1,
                min_bits: Some(0f64.to_bits()),
                max_bits: Some(16f64.to_bits()),
                positive: vec![SparseBucket { index: 4, count: 1 }],
            }),
        ),
    ]
}

#[test]
fn runtime_snapshot_becomes_metric_points() {
    let mut embedded = runtime();
    let mut exporter = embedded
        .attach(|| {
            FastTelemetryExporter::new(FastTelemetryConfig::new(
                "tenant-a".to_owned(),
                "embedded-test".to_owned(),
            ))
        })
        .expect("exporter attachment");
    let early = exporter.export_once(&embedded, TimeSpan { nanos: 98 }, &snapshots());
    assert_eq!(early.unwrap_err().kind, ApiErrorKind::Configuration);
    let nothing = exporter.export_once(&embedded, TimeSpan { nanos: 98 }, &Vec::new());
    let nothing = nothing.expect("nothing to append");
    assert_eq!((nothing.request, nothing.report.admitted_series), (None, 4));
    exporter.finish_export(nothing.report, Ok(0)).expect("empty export");
    embedded.mark_ready().expect("ready");
    let pending = exporter
        .export_once(&embedded, TimeSpan { nanos: 99 }, &snapshots())
        .expect("export starts");
    let second = exporter.export_once(&embedded, TimeSpan { nanos: 100 }, &snapshots());
    assert!(second.expect("skipped").report.skipped_busy);
    let points = match pending.request {
        Some(StoreRequest::AppendMetrics { points, .. }) => points,
        other => panic!("unexpected request {other:?}"),
    };
    assert_eq!(points.len(), 4);
    let requests =
        points.iter().find(|point| point.identity.name == "requests_total").expect("counter");
    assert_eq!(requests.timestamp_unix_nanos, 99);
    assert_eq!(requests.identity.scope.name, "api");
    assert_eq!(requests.identity.resource.attributes.len(), 1);
    assert_eq!(requests.identity.point_attributes.len(), 1);
    assert!(matches!(requests.value, MetricValue::Sum(NumberValue::Integer(3))));
    let distribution =
        points.iter().find(|point| point.identity.name == "payload_bytes").expect("distribution");
    assert!(matches!(
        distribution.value,
        MetricValue::ExponentialHistogram(ExponentialHistogramValue {
            scale: 0,
            zero_count: HistogramCount::Integer(1),
            ..
        })
    ));
    let report = exporter.finish_export(pending.report, Ok(1)).expect("snapshot export");
    assert_eq!(report.observed_points, 4);
    assert_eq!(report.dropped_points, 0);
    assert_eq!(report.dropped_cardinality_points, 0);
    assert_eq!(report.admitted_series, 4);
    assert_eq!(report.appended_points, 4);
    assert!(!report.skipped_busy);

    assert!(embedded.drain().is_some());
    let late = exporter.export_once_at(&embedded, 101, &snapshots());
    assert_eq!(
        late.unwrap_err().message,
        "embedded telemetry is not ready to accept direct ingestion"
    );
    embedded.finish_drain(Ok(())).expect("drain");
    assert!(exporter.export_once_at(&embedded, 102, &snapshots()).is_err());
}

#[test]
fn refused_attachments_are_not_run() {
    let mut embedded = runtime();
    let failed: Result<(), LokiApiError> =
        embedded.attach(|| Err(LokiApiError::internal("no exporter")));
    assert_eq!(failed.unwrap_err().message, "no exporter");
    assert_eq!(embedded.state(), EmbeddedTelemetryState::AwaitingAttachment);
    embedded.mark_ready().expect("ready");
    let refused: Result<(), LokiApiError> = embedded.attach(|| panic!("no operation is run"));
    assert_eq!(refused.unwrap_err().kind, ApiErrorKind::Configuration);
    assert_eq!(embedded.state(), EmbeddedTelemetryState::Ready);
    embedded.drain();
    let refused: Result<(), LokiApiError> = embedded.attach(|| panic!("no operation is run"));
    assert!(refused.is_err());
}

#[test]
fn exporter_enforces_a_lifetime_distinct_series_cap() {
    let config = FastTelemetryConfig::new("tenant-a".to_owned(), "cardinality-test".to_owned())
        .with_max_series(2);
    let mut exporter = FastTelemetryExporter::new(config).expect("exporter attachment");
    let mut embedded = runtime();
    embedded.mark_ready().expect("ready");
    for _ in 0..2 {
        let pending = exporter.export_once_at(&embedded, 1, &snapshots()).expect("starts");
        let report = exporter.finish_export(pending.report, Ok(1)).expect("export");
        assert_eq!(report.observed_points, 4);
        assert_eq!(report.appended_points, 2);
        assert_eq!(report.dropped_points, 2);
        assert_eq!(report.dropped_cardinality_points, 2);
        assert_eq!(report.admitted_series, 2);
    }
    let pending = exporter.export_once_at(&embedded, 2, &snapshots()).expect("starts");
    let refused = Err(LokiApiError::internal("store is full"));
    assert_eq!(exporter.finish_export(pending.report, refused).unwrap_err().message, "store is full");
    let pending = exporter.export_once_at(&embedded, 3, &snapshots()).expect("starts");
    assert!(!pending.report.skipped_busy);
}

#[test]
fn exporter_settings_are_checked() {
    let config = || FastTelemetryConfig::new("tenant-a".to_owned(), "service".to_owned());
    assert!(config().validate().is_ok());
    assert!(config().with_interval(TimeSpan::zero()).validate().is_err());
    assert!(config().with_max_series(0).validate().is_err());
    assert!(config().with_max_points_per_export(0).validate().is_err());
    assert!(FastTelemetryConfig::new(String::new(), "s".to_owned()).validate().is_err());
    let config = config().with_resource_attribute(TelemetryAttribute::new(
        "zone",
        TelemetryValue::String("a".to_owned()),
    ));
    assert_eq!(config.resource_attributes.len(), 2);
    assert_eq!(FastTelemetryExporter::new(config).unwrap().interval(), TimeSpan::from_secs(5));
}
