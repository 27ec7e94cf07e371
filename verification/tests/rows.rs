use shard_telemetry::analytics_arrow::{
    column_values, direct_metric_record_batch, direct_span_record_batch, fits_arrow,
    points_fit_arrow, record_batch, spans_fit_arrow, ColumnValues,
};
use shard_telemetry::analytics_columns::{AnalyticsColumn, AnalyticsRelation};
use shard_telemetry::analytics_direct::{
    write_direct_metric_rowbinary, write_direct_span_rowbinary,
};
use shard_telemetry::analytics_metrics::{metric_row, metric_rows, projected_metric_row};
use shard_telemetry::analytics_projection::{log_row, projected_log_row, Rendered};
use shard_telemetry::analytics_rowbinary::write_rowbinary_row;
use shard_telemetry::analytics_spans::{ordinal, projected_span_row, span_row, span_rows};
use shard_telemetry::attributes::TelemetryAttribute;
use shard_telemetry::block_results::BlockResult;
use shard_telemetry::corpus::Corpus;
use shard_telemetry::corpus_store::number_points;
use shard_telemetry::correlation_filter::CorrelationBlockFilter;
use shard_telemetry::correlation_query::CorrelationQuery;
use shard_telemetry::dictionary::{CompressionCohortId, CompressionPlacementId, DictionaryId};
use shard_telemetry::docker_blocks::BlockSpan;
use shard_telemetry::records::MetadataField;
use shard_telemetry::string_map::StringMap;
use shard_telemetry::structural_bench::{
    add_worker, finish_block, BlockPlace, CompressionLocalityStats,
};
use shard_telemetry::structural_run::{
    begin_totals, block_bytes, block_place, dictionary_bytes, WorkerRun,
};
use shard_telemetry::workloads::{
    canonical_log_bytes, decode_record, message_of_size, offload_line,
};

fn corpus(count: usize) -> Corpus {
    let gauge_bits = (0..910).map(|index| (4.0 + f64::from(index) / 10.0).to_bits()).collect();
    Corpus::generate(count, &gauge_bits)
}

fn texts(attributes: &[TelemetryAttribute]) -> Vec<String> {
    attributes.iter().map(|attribute| format!("{:?}", attribute.value)).collect()
}

fn rendered(
    attributes: &[TelemetryAttribute],
    resource: &[TelemetryAttribute],
    scope: &[TelemetryAttribute],
) -> Rendered {
    Rendered {
        attributes: texts(attributes),
        resource_attributes: texts(resource),
        scope_attributes: texts(scope),
        ..Rendered::new()
    }
}

#[test]
fn direct_points_are_written_like_their_rows() {
    let corpus = corpus(3);
    let columns = [
        AnalyticsColumn::Timestamp,
        AnalyticsColumn::StartTimestamp,
        AnalyticsColumn::Partition,
        AnalyticsColumn::Offset,
        AnalyticsColumn::Name,
        AnalyticsColumn::ScalarInteger,
        AnalyticsColumn::ScalarDoubleBits,
    ];
    let mut direct = Vec::new();
    assert!(write_direct_metric_rowbinary(&corpus.points, &columns, &mut direct).unwrap());
    let mut rows = Vec::new();
    let mut written = Vec::new();
    for point in &corpus.points {
        let texts = rendered(
            &point.identity.point_attributes,
            &point.identity.resource.attributes,
            &point.identity.scope.attributes,
        );
        let row = metric_row(point, &texts).unwrap();
        let projected = projected_metric_row(point, &columns, &texts).unwrap();
        let mut short = Vec::new();
        write_rowbinary_row(&mut short, &projected, &columns);
        let before = written.len();
        write_rowbinary_row(&mut written, &row, &columns);
        assert_eq!(short, written[before..]);
        rows.push(row);
    }
    assert_eq!(direct, written);
    assert!(points_fit_arrow(&corpus.points, &columns) && fits_arrow(&rows, &columns));
    let batch = direct_metric_record_batch(&corpus.points, &columns).unwrap().unwrap().batch;
    assert_eq!(batch, record_batch(&rows, &columns).unwrap().batch);
    assert!(!write_direct_metric_rowbinary(&corpus.points, &[AnalyticsColumn::Tenant], &mut direct)
        .unwrap());
    assert!(direct_metric_record_batch(&corpus.points, &[AnalyticsColumn::Tenant])
        .unwrap()
        .is_none());
    match column_values(&rows, AnalyticsColumn::Offset) {
        ColumnValues::UInt64(values) => assert_eq!(values, [Some(0), Some(1), Some(2)]),
        other => panic!("unexpected values {other:?}"),
    }
    let exemplars =
        metric_rows(&corpus.points[0], AnalyticsRelation::MetricExemplars, &Vec::new()).unwrap();
    assert!(exemplars.is_empty());
}

#[test]
fn direct_spans_are_written_like_their_rows() {
    let corpus = corpus(3);
    let columns = [
        AnalyticsColumn::Timestamp,
        AnalyticsColumn::EndTimestamp,
        AnalyticsColumn::Partition,
        AnalyticsColumn::Offset,
        AnalyticsColumn::Name,
        AnalyticsColumn::Kind,
        AnalyticsColumn::DurationNanos,
        AnalyticsColumn::StatusCode,
    ];
    let mut direct = Vec::new();
    assert!(write_direct_span_rowbinary(&corpus.spans, &columns, &mut direct).unwrap());
    let mut rows = Vec::new();
    let mut written = Vec::new();
    for span in &corpus.spans {
        let texts =
            rendered(&span.attributes, &span.resource.attributes, &span.scope.attributes);
        let row = span_row(span, &texts).unwrap();
        let projected = projected_span_row(span, &columns, &texts).unwrap();
        let mut short = Vec::new();
        write_rowbinary_row(&mut short, &projected, &columns);
        let before = written.len();
        write_rowbinary_row(&mut written, &row, &columns);
        assert_eq!(short, written[before..]);
        rows.push(row);
    }
    assert_eq!(direct, written);
    assert!(spans_fit_arrow(&corpus.spans, &columns));
    let batch = direct_span_record_batch(&corpus.spans, &columns).unwrap().unwrap().batch;
    assert_eq!(batch, record_batch(&rows, &columns).unwrap().batch);
    let whole = span_rows(
        &corpus.spans[0],
        AnalyticsRelation::Spans,
        &vec![rendered(
            &corpus.spans[0].attributes,
            &corpus.spans[0].resource.attributes,
            &corpus.spans[0].scope.attributes,
        )],
    )
    .unwrap();
    assert_eq!(whole.len(), 1);
    assert_eq!(ordinal(7), 7);
}

#[test]
fn times_beyond_the_range_are_refused() {
    let mut corpus = corpus(1);
    corpus.points[0].timestamp_unix_nanos = u64::MAX;
    corpus.spans[0].start_time_unix_nanos = u64::MAX;
    let columns = [AnalyticsColumn::Timestamp];
    let mut output = Vec::new();
    assert!(write_direct_metric_rowbinary(&corpus.points, &columns, &mut output).is_err());
    assert!(write_direct_span_rowbinary(&corpus.spans, &columns, &mut output).is_err());
    assert!(direct_metric_record_batch(&corpus.points, &columns).is_err());
    assert!(direct_span_record_batch(&corpus.spans, &columns).is_err());
}

#[test]
fn logs_are_projected() {
    let corpus = corpus(1);
    let log = &corpus.durable_logs[0];
    let texts = rendered(&log.attributes, &log.resource.attributes, &log.scope.attributes);
    let row = log_row("tenant", log, StringMap::new(), StringMap::new(), &texts).unwrap();
    assert_eq!(row.message.as_deref(), Some(log.message.as_str()));
    let columns = [AnalyticsColumn::Message, AnalyticsColumn::Offset];
    let projected = projected_log_row("tenant", log, &columns, &texts).unwrap();
    assert_eq!(projected.message, row.message);
    assert_eq!(projected.severity_text, None);
}

#[test]
fn workers_pack_their_blocks_one_behind_the_other() {
    let spans = vec![
        BlockSpan { ordinal: 0, start: 3, length: 4 },
        BlockSpan { ordinal: 1, start: 7, length: 2 },
        BlockSpan { ordinal: 2, start: 9, length: 1 },
    ];
    let content = b"xx\nabc\nd\ne";
    let mut totals = begin_totals(&spans, 3, 2);
    assert_eq!((totals.input_bytes, totals.blocks, totals.workers), (7, 3, 2));
    assert_eq!(totals.leading_discarded_bytes, 3);
    let mut run = WorkerRun::new(0, 2, true);
    while let Some(span) = run.take_block(&spans) {
        let raw = block_bytes(content, span).unwrap();
        let place = block_place(span, 3);
        assert_eq!(place.input_bytes, raw.len() as u64);
        run.store_block(BlockResult {
            ordinal: place.ordinal,
            source_offset: place.source_offset,
            input_bytes: place.input_bytes,
            source_bytes: place.input_bytes,
            record_count: 1,
            rejected_records: 0,
            rejected_bytes: 0,
            structural_bytes: 1,
            embedded_index_bytes: 0,
            structural_stored_bytes: 10,
            pack_worker: 0,
            pack_offset: 0,
            payload_checksum: 0,
            dictionary_id: None,
            structural_compression_nanos: 2,
        });
    }
    assert_eq!(
        run.blocks
            .iter()
            .map(|block| (block.ordinal, block.source_offset, block.pack_offset))
            .collect::<Vec<_>>(),
        vec![(0, 0, 0), (2, 6, 10)]
    );
    let locality = CompressionLocalityStats { observations: 4, ..totals.locality };
    add_worker(&mut totals, &run.blocks, locality);
    assert_eq!(totals.structural_stored_bytes, 20);
    assert_eq!(totals.locality.observations, 4);
    let past = BlockSpan { ordinal: 0, start: 9, length: 2 };
    assert_eq!(block_bytes(content, past).unwrap_err(), "mapped block range exceeds input");
    let far = BlockSpan { ordinal: 0, start: 9, length: usize::MAX };
    assert_eq!(block_bytes(content, far).unwrap_err(), "mapped block range overflows");
    assert_eq!(
        dictionary_bytes(&vec![(DictionaryId::new(1), std::sync::Arc::new(vec![0; 5]))]),
        5
    );
    let place = BlockPlace { ordinal: 0, source_offset: 0, input_bytes: 0 };
    let block = shard_telemetry::docker_blocks::read_block(b"", 0, &Vec::new());
    let (result, payload) = finish_block(place, &block, Vec::new(), 0).unwrap();
    assert_eq!(result.record_count, 0);
    assert_eq!(payload, b"SLOGLOC1\0\0\0\0");
}

#[test]
fn workload_records_are_exact() {
    assert_eq!(offload_line(3, 9), "partition=3 sequence=9");
    assert_eq!(message_of_size(0), " request 12345678 failed");
    assert_eq!(message_of_size(50), "static-log-literal static- request 12345678 failed");
    let record = decode_record(61);
    assert_eq!(record.timestamp_unix_nanos, 1_775_000_000_061_000_000);
    assert_eq!(record.fields[2], MetadataField::new("severity", "ERROR"));
    assert_eq!(
        canonical_log_bytes(&record, 10),
        64 + record.message.len() + 10 + 48 + 19 + 22 + 13
    );
}

#[test]
fn placements_follow_cohorts() {
    assert_eq!(CompressionCohortId::unclassified().get(), 0);
    assert_eq!(
        CompressionPlacementId::from_source_cohort(CompressionCohortId::new(6)).get(),
        6
    );
    let mut points = corpus(2).points;
    number_points(&mut points, 4);
    assert_eq!(points[1].record_ref.topic_partition.partition_id.get(), 4);
    let query = CorrelationQuery::new("t").with_scope_id(points[0].identity.scope_id());
    assert!(CorrelationBlockFilter::from_query(&query).may_match(&query));
}
