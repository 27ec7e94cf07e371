use std::sync::Arc;

use shard_telemetry::attributes::{TelemetryAttribute, TelemetryValue};
use shard_telemetry::correlation::{CorrelationConfig, CorrelationIndex, CorrelationPosting};
use shard_telemetry::correlation_filter::{correlation_filter_bits, CorrelationBlockFilter};
use shard_telemetry::correlation_query::{
    metric_matches_correlation, span_matches_correlation, CorrelationKey, CorrelationQuery,
};
use shard_telemetry::corpus::Corpus;
use shard_telemetry::dictionary::CompressionCohortId;
use shard_telemetry::model::{
    LogicalOffset, LogicalPartitionId, ShardId, TelemetryRecordRef, TelemetrySignal, TopicId,
    TopicPartition, LOGS_TOPIC_ID,
};
use shard_telemetry::records::{
    DurableLog, ResourceContext, ScopeContext, SeriesFingerprint, SpanId, TraceId,
};

fn text(key: &str, value: &str) -> TelemetryAttribute {
    TelemetryAttribute::new(key, TelemetryValue::String(value.to_owned()))
}

fn partition() -> TopicPartition {
    TopicPartition::new(TopicId::new(LOGS_TOPIC_ID), LogicalPartitionId::new(1))
}

fn gauge_bits() -> Vec<u64> {
    (0..910).map(|index| (4.0 + f64::from(index) / 10.0).to_bits()).collect()
}

#[test]
fn shared_typed_metadata_connects_signals_without_retaining_values() {
    let service = text("service.name", "checkout");
    let resource = Arc::new(ResourceContext {
        attributes: Arc::new(vec![text("service.name", "checkout")]),
        ..ResourceContext::new()
    });
    let scope = Arc::new(ScopeContext::new());
    let mut log = DurableLog::new(
        ShardId::new(0),
        partition(),
        LogicalOffset::new(7),
        42,
        "request complete",
        CompressionCohortId::new(1),
    );
    log.resource = resource;
    log.scope = scope;
    let mut index = CorrelationIndex::new(CorrelationConfig::default());
    index.index_log("tenant-a", &log);

    let refs = index.query(
        &CorrelationQuery::new("tenant-a")
            .with_resource_id(log.resource_id())
            .with_attribute(&service),
    );
    assert_eq!(refs, vec![log.record_ref]);
    assert_eq!(index.stats().refs, 3);
}

#[test]
fn bounds_drop_only_optional_postings() {
    let mut index = CorrelationIndex::new(CorrelationConfig {
        max_keys: 1,
        max_refs_per_key: 1,
        max_total_refs: 1,
    });
    for offset in 0..2 {
        let log = DurableLog::new(
            ShardId::new(0),
            partition(),
            LogicalOffset::new(offset),
            offset,
            "message",
            CompressionCohortId::new(1),
        );
        index.index_log("tenant-a", &log);
    }
    assert_eq!(index.stats().refs, 1);
    assert!(index.stats().dropped_postings > 0);
}

#[test]
fn bounded_intersection_preserves_order_filters_and_pagination() {
    let first = text("shared", "yes");
    let second = text("region", "east");
    let mut index = CorrelationIndex::new(CorrelationConfig {
        max_keys: 2,
        max_refs_per_key: 20_000,
        max_total_refs: 40_000,
    });
    let tenant_id = index.tenant_id("tenant-a").expect("tenant is admitted");
    for offset in 0..10_000 {
        let record = TelemetryRecordRef::for_signal(
            TelemetrySignal::Logs,
            partition(),
            LogicalOffset::new(offset),
        );
        let posting = CorrelationPosting { record_ref: record, timestamp_unix_nanos: offset };
        index.insert(tenant_id, CorrelationKey::Attribute(first.fingerprint()), posting);
        if offset % 2 == 0 {
            index.insert(tenant_id, CorrelationKey::Attribute(second.fingerprint()), posting);
        }
    }
    let after = TelemetryRecordRef::for_signal(
        TelemetrySignal::Logs,
        partition(),
        LogicalOffset::new(4_990),
    );
    let result = index.query(
        &CorrelationQuery::new("tenant-a")
            .with_attribute(&first)
            .with_attribute(&second)
            .for_signal(TelemetrySignal::Logs)
            .after(after)
            .with_limit(3),
    );
    assert_eq!(
        result.iter().map(|record| record.offset.get()).collect::<Vec<_>>(),
        vec![4_992, 4_994, 4_996]
    );
}

#[test]
fn time_bounds_and_retention_remove_expired_navigation_postings() {
    let resource = Arc::new(ResourceContext {
        attributes: Arc::new(vec![text("service.name", "checkout")]),
        ..ResourceContext::new()
    });
    let mut index = CorrelationIndex::new(CorrelationConfig::default());
    for (offset, timestamp) in [(0, 10), (1, 20)] {
        let mut log = DurableLog::new(
            ShardId::new(0),
            partition(),
            LogicalOffset::new(offset),
            timestamp,
            "message",
            CompressionCohortId::new(1),
        );
        log.resource = Arc::clone(&resource);
        index.index_log("tenant-a", &log);
    }
    let query = CorrelationQuery {
        start_time_unix_nanos: Some(15),
        ..CorrelationQuery::new("tenant-a").with_resource_id(resource.id())
    };
    assert_eq!(
        index.query(&query).into_iter().map(|record| record.offset.get()).collect::<Vec<_>>(),
        vec![1]
    );

    index.retain_since_timestamp(15);
    assert_eq!(index.query(&query).len(), 1);
    assert!(index.stats().refs > 0);
    let expired = CorrelationQuery {
        end_time_unix_nanos: Some(14),
        ..CorrelationQuery::new("tenant-a").with_resource_id(resource.id())
    };
    assert!(index.query(&expired).is_empty());
}

#[test]
fn tenants_and_unconstrained_queries_find_nothing() {
    let mut index = CorrelationIndex::new(CorrelationConfig::default());
    let log = DurableLog::new(
        ShardId::new(0),
        partition(),
        LogicalOffset::new(7),
        42,
        "request complete",
        CompressionCohortId::new(1),
    );
    index.index_log("tenant-a", &log);
    assert!(index.query(&CorrelationQuery::new("tenant-a")).is_empty());
    let query = CorrelationQuery::new("tenant-b").with_resource_id(log.resource_id());
    assert!(index.query(&query).is_empty());
    assert_eq!(index.tenant_id("tenant-a"), Some(0));
    assert_eq!(index.tenant_id("tenant-b"), Some(1));
}

#[test]
fn spans_and_points_are_found_by_what_they_carry() {
    let corpus = Corpus::generate(64, &gauge_bits());
    let mut index = CorrelationIndex::new(CorrelationConfig::default());
    for span in &corpus.spans {
        index.index_span(span);
    }
    for point in &corpus.points {
        index.index_metric(point);
    }
    let tenant = corpus.spans[0].tenant.as_str();
    let query = CorrelationQuery::new(tenant).with_trace_id(corpus.spans[9].trace_id);
    let found = index.query(&query);
    assert_eq!(found.len(), 8);
    for span in &corpus.spans {
        assert_eq!(found.contains(&span.record_ref), span_matches_correlation(&query, span));
    }
    let metrics = CorrelationQuery::new(tenant)
        .with_resource_id(corpus.resource.id())
        .for_signal(TelemetrySignal::Metrics);
    assert_eq!(index.query(&metrics).len(), 64);
    assert!(corpus.points.iter().all(|point| metric_matches_correlation(&metrics, point)));

    let filter = CorrelationBlockFilter::for_spans(&corpus.spans);
    assert!(filter.may_match_trace_block(&query, 0, u128::MAX));
    assert!(!filter.may_match_trace_block(&query, 0, 0));
    let query = CorrelationQuery::new(tenant).with_attribute(&corpus.label);
    assert!(filter.may_match(&query));
    assert!(!filter.may_match(&CorrelationQuery::new("nobody").with_label("a", "b")));
    let mut union = CorrelationBlockFilter::new();
    assert!(!union.may_match(&query));
    union.union_assign(&filter);
    assert!(union.may_match(&query));
    assert!(CorrelationBlockFilter::for_metrics(&corpus.points).may_match(&metrics));
    let bits = correlation_filter_bits(tenant, CorrelationKey::Trace(TraceId(1)));
    assert!(bits.iter().all(|bit| *bit < 1_024));
}

#[test]
fn identities_tell_contents_apart() {
    let left = ResourceContext {
        attributes: Arc::new(vec![text("service.name", "checkout")]),
        ..ResourceContext::new()
    };
    let right = ResourceContext {
        attributes: Arc::new(vec![text("service.name", "checkouu")]),
        ..ResourceContext::new()
    };
    assert_ne!(left.id(), right.id());
    assert_eq!(left.id(), left.id());
    assert_ne!(ResourceContext::new().id(), left.id());
    let named = ScopeContext { name: "a".to_owned(), ..ScopeContext::new() };
    assert_ne!(named.id(), ScopeContext::new().id());
}

#[test]
fn record_references_are_ordered() {
    let reference = |signal, offset| {
        TelemetryRecordRef::for_signal(signal, partition(), LogicalOffset::new(offset))
    };
    let first = reference(TelemetrySignal::Logs, 9);
    let second = reference(TelemetrySignal::Traces, 1);
    assert!(first.is_before(&second) && !second.is_before(&first));
    assert!(reference(TelemetrySignal::Logs, 8).is_before(&first));
    assert!(!first.is_before(&first));
    for signal in [TelemetrySignal::Logs, TelemetrySignal::Traces, TelemetrySignal::Metrics] {
        assert_eq!(TelemetrySignal::from_wire(signal.to_wire()), Some(signal));
    }
    assert_eq!(TelemetrySignal::from_wire(0), None);
}

#[test]
fn identifiers_are_read_from_bytes() {
    assert_eq!(TraceId::from_bytes(&[7; 16]).unwrap().text(), "07".repeat(16));
    assert!(TraceId::from_bytes(&[0; 16]).is_err());
    assert!(TraceId::from_bytes(&[7; 15]).is_err());
    assert_eq!(SpanId::from_bytes(&[8; 8]).unwrap().get(), 0x0808_0808_0808_0808);
    assert!(SpanId::from_bytes(&[0; 8]).is_err());
    assert_eq!(SeriesFingerprint::from_raw(5).get(), 5);
}
