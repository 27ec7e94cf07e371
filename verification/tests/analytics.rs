use std::collections::BTreeSet;
use std::io::Cursor;

use arrow_array::{Array, MapArray, StringArray, TimestampNanosecondArray};
use arrow_ipc::reader::StreamReader;
use arrow_ipc::writer::StreamWriter;
use shard_telemetry::analytics_arrow::{record_batch, write_jsonlines_row};
use shard_telemetry::analytics_columns::{
    AnalyticsColumn, AnalyticsRelation, AnalyticsScanOrder, AnalyticsWireFormat,
};
use shard_telemetry::analytics_projection::{attribute_ids, attribute_map};
use shard_telemetry::analytics_request::{decode_hex, parse_scan_request, AnalyticsScanRequest};
use shard_telemetry::analytics_row::{timestamp_i64, AnalyticsRow};
use shard_telemetry::analytics_rowbinary::{
    cardinality_batch, next_cardinality_batch, write_rowbinary_row, ChunkBuffer,
};
use shard_telemetry::analytics_scan::{
    message_has_clickhouse_token, message_has_term, scan_entries, CaseSensitivity, LokiEntry,
};
use shard_telemetry::attributes::{TelemetryAttribute, TelemetryValue};
use shard_telemetry::error::ApiErrorKind;
use shard_telemetry::records::MetadataField;
use shard_telemetry::string_map::StringMap;

fn relations() -> Vec<AnalyticsRelation> {
    vec![
        AnalyticsRelation::Logs,
        AnalyticsRelation::Spans,
        AnalyticsRelation::SpanEvents,
        AnalyticsRelation::SpanLinks,
        AnalyticsRelation::MetricPoints,
        AnalyticsRelation::MetricExemplars,
    ]
}

fn map_of(pairs: &[(&str, &str)]) -> StringMap {
    let mut map = StringMap::new();
    for (key, value) in pairs {
        map.insert((*key).to_owned(), (*value).to_owned());
    }
    map
}

#[test]
fn channel_writer_coalesces_arrow_flushes_until_size_or_finish() {
    let mut writer = ChunkBuffer::new(64);
    assert!(writer.write(b"schema").is_none());
    assert!(writer.write(b"batch").is_none());
    assert_eq!(writer.finish().unwrap(), b"schemabatch");
    assert!(writer.finish().is_none());
    let chunk = writer.write(&[7u8; 64]).expect("the threshold is reached");
    assert_eq!(chunk, vec![7u8; 64]);
}

#[test]
fn request_parses_relation_columns_ids_and_pushdown_constraints() {
    let request = parse_scan_request(
        "tenant-a",
        Some("relation=spans&start_ns=10&end_ns=20&trace_id=01010101010101010101010101010101&resource.service.name=api&columns=timestamp,trace_id,name&limit=7"),
    )
    .expect("valid scan");
    assert_eq!(request.relation, AnalyticsRelation::Spans);
    assert_eq!(request.start_timestamp_unix_nanos, Some(10));
    assert_eq!(request.end_timestamp_unix_nanos, Some(20));
    assert_eq!(
        request.trace_id.expect("trace").text(),
        "01010101010101010101010101010101"
    );
    assert_eq!(request.resource_attributes[0], MetadataField::new("service.name", "api"));
    assert_eq!(
        request.columns,
        vec![AnalyticsColumn::Timestamp, AnalyticsColumn::TraceId, AnalyticsColumn::Name]
    );
    assert_eq!(request.limit, Some(7));
}

#[test]
fn request_rejects_ambiguous_or_relation_incompatible_inputs() {
    for query in [
        "unknown=value",
        "relation=logs&relation=spans",
        "relation=unknown",
        "relation=spans&columns=message",
        "columns=timestamp&columns=message",
        "columns=timestamp,timestamp",
        "columns=",
        "start_ns=20&end_ns=20",
        "start_ns=-1",
        "limit=-1",
        "label.=value",
        "relation=spans&term=error",
        "relation=spans&message_token=error",
        "relation=spans&message_token_ci=error",
        "trace_id=00",
        "columns=offset&cardinality_only=maybe",
        "columns=offset&cardinality_only=1&cardinality_only=1",
        "columns=message&cardinality_only=1",
        "columns=partition,offset&cardinality_only=1&wire=rowbinary",
        "order=timestamp_desc",
        "limit=1&order=unknown",
        "limit=1&order=timestamp_desc&order=timestamp_asc",
        "relation=spans&limit=1&order=timestamp_desc",
    ] {
        assert!(
            parse_scan_request("tenant-a", Some(query)).is_err(),
            "query must fail closed: {query}"
        );
    }
}

#[test]
fn cardinality_request_is_explicit_and_uses_one_fixed_width_lane() {
    let request = parse_scan_request("tenant-a", Some("columns=offset&cardinality_only=1"))
        .expect("cardinality request");
    assert!(request.cardinality_only);
    assert_eq!(request.columns, [AnalyticsColumn::Offset]);

    let rowbinary = parse_scan_request(
        "tenant-a",
        Some("columns=partition&cardinality_only=1&wire=rowbinary"),
    )
    .expect("RowBinary cardinality request");
    assert!(rowbinary.cardinality_only);
    assert_eq!(rowbinary.columns, [AnalyticsColumn::Partition]);

    assert!(
        parse_scan_request("tenant-a", Some("columns=offset&cardinality_only=1&wire=jsonl"))
            .is_err()
    );
}

#[test]
fn bounded_timestamp_order_is_parsed_explicitly() {
    let request = parse_scan_request(
        "tenant-a",
        Some("columns=timestamp,message&limit=100&order=timestamp_desc"),
    )
    .expect("ordered request");
    assert_eq!(request.order, Some(AnalyticsScanOrder::TimestampDescending));
    assert_eq!(request.limit, Some(100));
}

#[test]
fn exact_message_token_is_parsed_for_log_scans() {
    let request = parse_scan_request(
        "tenant-a",
        Some("message_token=Cannot&message_token_ci=cannot&limit=10&order=timestamp_desc"),
    )
    .expect("exact token scan");
    assert_eq!(request.message_tokens, ["Cannot".to_owned()]);
    assert_eq!(request.case_insensitive_message_tokens, ["cannot".to_owned()]);
}

#[test]
fn zero_limit_is_a_valid_empty_scan() {
    let entries = vec![LokiEntry {
        timestamp_unix_nanos: 11,
        labels: StringMap::new(),
        line: "must not be emitted".to_owned(),
        structured_metadata: StringMap::new(),
    }];
    let request = parse_scan_request("tenant-a", Some("limit=0")).expect("zero limit is valid");
    let outcome = scan_entries(&entries, &request);
    outcome.result.expect("empty scan");
    assert!(outcome.batches.is_empty());
}

#[test]
fn projected_arrow_batch_preserves_timestamp_message_and_maps() {
    let mut row = AnalyticsRow::empty("tenant-a", "logs", 123, 4, 9).expect("row");
    row.message = Some("request failed".to_owned());
    row.labels.insert("app".to_owned(), "api".to_owned());
    row.metadata.insert("code".to_owned(), "500".to_owned());
    let columns = vec![
        AnalyticsColumn::Timestamp,
        AnalyticsColumn::Message,
        AnalyticsColumn::Labels,
    ];
    let batch = record_batch(&[row], &columns).expect("batch").batch;
    let mut bytes = Vec::new();
    {
        let mut writer = StreamWriter::try_new(&mut bytes, &batch.schema()).expect("writer");
        writer.write(&batch).expect("write");
        writer.finish().expect("finish");
    }
    let mut reader = StreamReader::try_new(Cursor::new(bytes), None).expect("reader");
    let decoded = reader.next().expect("one batch").expect("valid batch");
    assert_eq!(
        decoded
            .column(0)
            .as_any()
            .downcast_ref::<TimestampNanosecondArray>()
            .unwrap()
            .value(0),
        123
    );
    assert_eq!(
        decoded.column(1).as_any().downcast_ref::<StringArray>().unwrap().value(0),
        "request failed"
    );
    assert_eq!(
        decoded.column(2).as_any().downcast_ref::<MapArray>().unwrap().value_length(0),
        1
    );
}

#[test]
fn jsonlines_projection_preserves_exact_numeric_and_map_values() {
    let mut row =
        AnalyticsRow::empty("tenant-a", "logs", 1_800_000_000_000_000_001, 4, 9).expect("row");
    row.message = Some("request failed".to_owned());
    row.labels.insert("app".to_owned(), "api".to_owned());
    row.metadata.insert("code".to_owned(), "500".to_owned());
    let columns = vec![
        AnalyticsColumn::Timestamp,
        AnalyticsColumn::Offset,
        AnalyticsColumn::Message,
        AnalyticsColumn::Labels,
        AnalyticsColumn::Metadata,
    ];
    let mut output = Vec::new();
    write_jsonlines_row(&mut output, &row, &columns);
    assert!(output.ends_with(b"\n"));
    let value: serde_json::Value = serde_json::from_slice(&output).expect("valid JSON line");
    assert_eq!(value["timestamp"], 1_800_000_000_000_000_001_i64);
    assert_eq!(value["offset"], 9_u64);
    assert_eq!(value["message"], "request failed");
    assert_eq!(value["labels"]["app"], "api");
    assert_eq!(value["metadata"]["code"], "500");
}

#[test]
fn every_relation_builds_its_complete_declared_arrow_schema() {
    for relation in relations() {
        let row = AnalyticsRow::empty("tenant-a", relation.signal(), 123, 4, 9).expect("row");
        let columns = relation.columns();
        let batch = record_batch(&[row], &columns).expect("relation batch").batch;
        assert_eq!(batch.num_rows(), 1, "{relation:?}");
        assert_eq!(batch.num_columns(), columns.len(), "{relation:?}");
        assert_eq!(
            batch
                .schema()
                .fields()
                .iter()
                .map(|field| field.name().as_str())
                .collect::<Vec<_>>(),
            columns.iter().map(|column| column.name()).collect::<Vec<_>>(),
            "{relation:?}"
        );
    }
}

#[test]
fn relation_columns_are_unique_and_drawn_from_the_public_catalog() {
    let all = AnalyticsColumn::all();
    let catalog = all.iter().map(|column| column.name()).collect::<BTreeSet<_>>();
    assert_eq!(catalog.len(), all.len());
    for relation in relations() {
        let columns = relation.columns();
        let names = columns.iter().map(|column| column.name()).collect::<BTreeSet<_>>();
        assert_eq!(names.len(), columns.len(), "{relation:?}");
        assert!(names.is_subset(&catalog), "{relation:?}");
    }
}

#[test]
fn typed_attribute_fingerprints_disambiguate_equal_renderings() {
    let string = TelemetryAttribute::new("code", TelemetryValue::String("1".to_owned()));
    let integer = TelemetryAttribute::new("code", TelemetryValue::Integer(1));
    let texts = vec![String::new()];
    assert_eq!(
        attribute_map(std::slice::from_ref(&string), &texts),
        attribute_map(std::slice::from_ref(&integer), &texts)
    );
    assert_ne!(attribute_ids(&[string]), attribute_ids(&[integer]));
}

#[test]
fn in_memory_scan_applies_log_constraints() {
    let entries = vec![
        LokiEntry {
            timestamp_unix_nanos: 11,
            labels: map_of(&[("app", "api")]),
            line: "request completed".to_owned(),
            structured_metadata: map_of(&[("code", "200")]),
        },
        LokiEntry {
            timestamp_unix_nanos: 12,
            labels: map_of(&[("app", "api")]),
            line: "request ERROR".to_owned(),
            structured_metadata: map_of(&[("code", "500")]),
        },
    ];
    let mut request = AnalyticsScanRequest::new("tenant-a");
    request.start_timestamp_unix_nanos = Some(10);
    request.end_timestamp_unix_nanos = Some(20);
    request.terms.push("error".to_owned());
    request.message_tokens.push("ERROR".to_owned());
    request.labels.push(MetadataField::new("app", "api"));
    request.metadata.push(MetadataField::new("code", "500"));
    let outcome = scan_entries(&entries, &request);
    outcome.result.expect("scan");
    let observed = outcome.batches.into_iter().flatten().collect::<Vec<_>>();
    assert_eq!(observed.len(), 1);
    assert_eq!(observed[0].message.as_deref(), Some("request ERROR"));
}

#[test]
fn descending_scans_return_the_newest_rows_first() {
    let entries = (0..5)
        .map(|time| LokiEntry {
            timestamp_unix_nanos: 10 + time,
            labels: StringMap::new(),
            line: format!("line {time}"),
            structured_metadata: StringMap::new(),
        })
        .collect::<Vec<_>>();
    let request = parse_scan_request("tenant-a", Some("limit=2&order=timestamp_desc"))
        .expect("ordered request");
    let outcome = scan_entries(&entries, &request);
    outcome.result.expect("scan");
    let rows = outcome.batches.into_iter().flatten().collect::<Vec<_>>();
    assert_eq!(
        rows.iter().map(|row| row.message.as_deref().unwrap()).collect::<Vec<_>>(),
        ["line 4", "line 3"]
    );
}

#[test]
fn relation_names_parse_back() {
    for relation in relations() {
        assert_eq!(AnalyticsRelation::parse(relation.name()), Some(relation));
    }
    assert_eq!(AnalyticsRelation::parse("tables"), None);
    for column in AnalyticsColumn::all() {
        assert_eq!(AnalyticsColumn::parse(column.name()), Some(column));
    }
    assert_eq!(AnalyticsWireFormat::default(), AnalyticsWireFormat::ArrowStream);
}

#[test]
fn request_errors_are_bad_requests() {
    let error = parse_scan_request("tenant-a", Some("unknown=value")).unwrap_err();
    assert_eq!(error.kind, ApiErrorKind::BadRequest);
    let request = parse_scan_request("tenant-a", Some("relation=logs&message_token=%C3%A9+x"));
    assert_eq!(request.expect("parses").message_tokens, ["é x".to_owned()]);
    assert_eq!(decode_hex("0102", 2).unwrap(), vec![1, 2]);
    assert!(decode_hex("01", 2).is_err());
    assert!(decode_hex("0g02", 2).is_err());
    assert_eq!(timestamp_i64(7).unwrap(), 7);
    assert!(timestamp_i64(u64::MAX).is_err());
    let decoded = parse_scan_request("tenant-a", Some("term=a%20b&label.k=v%3D1")).unwrap();
    assert_eq!(decoded.terms, ["a b".to_owned()]);
    assert_eq!(decoded.labels[0], MetadataField::new("k", "v=1"));
}

#[test]
fn tokens_and_terms_follow_word_boundaries() {
    assert!(message_has_clickhouse_token("Cannot open", "Cannot", CaseSensitivity::Sensitive));
    assert!(!message_has_clickhouse_token("Cannot open", "cannot", CaseSensitivity::Sensitive));
    assert!(message_has_clickhouse_token("Cannot open", "cannot", CaseSensitivity::Insensitive));
    assert!(!message_has_clickhouse_token("Cannots", "Cannot", CaseSensitivity::Sensitive));
    assert!(message_has_term("request ERROR", "error"));
    assert!(!message_has_term("request errors", "error"));
}

#[test]
fn rowbinary_rows_are_exact() {
    let mut row = AnalyticsRow::empty("tenant-a", "logs", 5, 4, 9).expect("row");
    row.message = Some("hi".to_owned());
    let mut output = Vec::new();
    write_rowbinary_row(
        &mut output,
        &row,
        &[AnalyticsColumn::Timestamp, AnalyticsColumn::Partition, AnalyticsColumn::Offset],
    );
    let mut expected = 5i64.to_le_bytes().to_vec();
    expected.extend_from_slice(&4u32.to_le_bytes());
    expected.extend_from_slice(&9u64.to_le_bytes());
    assert_eq!(output, expected);
    assert_eq!(cardinality_batch(AnalyticsColumn::Offset, 3), vec![0u8; 24]);
    assert!(next_cardinality_batch(u64::MAX) > 0);
    assert_eq!(next_cardinality_batch(3), 3);
}
