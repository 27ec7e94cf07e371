use std::collections::BTreeMap;
use std::sync::Arc;

use shard_telemetry::block::{BlockCatalog, BlockDescriptor, BlockId, CompressionCodec};
use shard_telemetry::corpus::{mix, Corpus};
use shard_telemetry::corpus_rows::{
    attribute_integer, attribute_string, export_metrics, export_traces, render_export_manifest,
};
use shard_telemetry::corpus_store::{
    group_by_key, group_series, group_traces, number_spans, pack_groups, split_batches, wrap_batch,
    write_series_key, write_trace_key,
};
use shard_telemetry::deletion::{
    catalog_checksum, hex_string, load_state, parse_hex, DeleteRequest, DeleteState,
};
use shard_telemetry::dictionary::{
    CompressionCohortId, CompressionPlacementId, DictionaryCache, DictionaryCatalog, DictionaryId,
};
use shard_telemetry::envelope::TelemetryEnvelope;
use shard_telemetry::error::{ApiErrorKind, TelemetryError};
use shard_telemetry::identity_cache::IdentityCache;
use shard_telemetry::ingest::{arrange_by_ordinal, group_by_cohort, OtlpLogEvent};
use shard_telemetry::ingest_pack::{
    check_frame_index, decode_indexed_ingest_frames, decode_ingest_groups,
    decompress_indexed_ingest_frame, is_live_context, prepare_grouped_ingest_pack,
    prepare_single_cohort_ingest_pack, validate_ingest_pack, FrameIndexSource, IngestGroupInput,
    PreparedIngestPack,
};
use shard_telemetry::model::{
    LogicalOffset, LogicalPartitionId, ShardId, TelemetrySignal, TopicId, TopicPartition,
};
use shard_telemetry::records::{MetadataField, SeriesFingerprint, TraceId};
use shard_telemetry::signal_settings::{frame_blocks, parse_settings};
use shard_telemetry::string_map::StringMap;

const MAX_FRAME_BYTES: usize = 1 << 20;

fn gauge_bits() -> Vec<u64> {
    (0..910).map(|index| (4.0 + f64::from(index) / 10.0).to_bits()).collect()
}

/// One line for each record: its ordinal, its time, its message and its fields.
fn encode_events(events: &[&OtlpLogEvent], ordinals: &[u32]) -> Vec<u8> {
    let mut structural = Vec::new();
    for (event, ordinal) in events.iter().zip(ordinals) {
        let mut line = format!("{ordinal}\t{}\t{}", event.timestamp_unix_nanos, event.message);
        for field in event.fields.iter() {
            line.push_str(&format!("\t{}={}", field.key, field.value));
        }
        line.push('\n');
        structural.extend_from_slice(line.as_bytes());
    }
    structural
}

fn decode_events(structural: &[u8], cohort: CompressionCohortId) -> Vec<(u64, OtlpLogEvent)> {
    let text = String::from_utf8(structural.to_vec()).expect("structural text");
    text.lines()
        .map(|line| {
            let mut parts = line.split('\t');
            let ordinal = parts.next().expect("ordinal").parse().expect("number");
            let time = parts.next().expect("time").parse().expect("number");
            let message = parts.next().expect("message");
            let fields = parts
                .map(|pair| {
                    let (key, value) = pair.split_once('=').expect("pair");
                    MetadataField::new(key, value)
                })
                .collect();
            (ordinal, OtlpLogEvent::new(time, message, fields, cohort))
        })
        .collect()
}

/// The words of each record's service field, standing in for an index.
fn index_of(structural: &[u8]) -> Vec<u8> {
    decode_events(structural, CompressionCohortId::new(0))
        .iter()
        .flat_map(|(_, event)| event.fields[0].value.bytes().take(1).collect::<Vec<_>>())
        .collect()
}

fn prepare(events: &[OtlpLogEvent]) -> PreparedIngestPack {
    let cohorts = events.iter().map(|event| event.compression_cohort.get()).collect();
    let groups = group_by_cohort(&cohorts).expect("groups");
    let inputs = groups
        .iter()
        .map(|group| {
            let members =
                group.ordinals.iter().map(|ordinal| &events[*ordinal as usize]).collect::<Vec<_>>();
            let structural = encode_events(&members, &group.ordinals);
            IngestGroupInput {
                cohort: CompressionCohortId::new(group.cohort),
                timestamps_unix_nanos: members
                    .iter()
                    .map(|event| event.timestamp_unix_nanos)
                    .collect(),
                embedded_index: if events[0].fields.is_empty() {
                    Vec::new()
                } else {
                    index_of(&structural)
                },
                structural,
            }
        })
        .collect();
    prepare_grouped_ingest_pack(events.len() as u32, &inputs, MAX_FRAME_BYTES)
        .expect("pack prepares")
}

fn decode(payload: &[u8], record_count: u32) -> Vec<OtlpLogEvent> {
    let mut events = Vec::new();
    for group in decode_ingest_groups(payload).expect("pack decodes") {
        events.extend(decode_events(&group.structural, group.cohort));
    }
    let ordinals = events.iter().map(|(ordinal, _)| *ordinal).collect();
    let order = arrange_by_ordinal(&ordinals, record_count).expect("ordinals cover the pack");
    let mut events = events.into_iter().map(|(_, event)| Some(event)).collect::<Vec<_>>();
    order.iter().map(|place| events[*place].take().expect("taken once")).collect()
}

#[test]
fn compressed_ingest_pack_preserves_order_cohorts_and_exact_records() {
    let make = || {
        (0..32u64)
            .map(|ordinal| {
                OtlpLogEvent::new(
                    100 + ordinal,
                    &format!("request id={ordinal} completed"),
                    vec![MetadataField::new(
                        "service",
                        if ordinal % 2 == 0 { "api" } else { "worker" },
                    )],
                    CompressionCohortId::new(ordinal % 3),
                )
            })
            .collect::<Vec<_>>()
    };
    let events = make();
    let encoded = prepare(&events).payload;
    validate_ingest_pack(&encoded, events.len() as u32).expect("pack validates");
    assert_eq!(decode(&encoded, events.len() as u32), make());
    assert!(encoded.len() < 16 * 1024);
}

#[test]
fn compressor_index_is_reused_live_and_recovered_from_durable_frames() {
    let events = (0..64u64)
        .map(|ordinal| {
            OtlpLogEvent::new(
                10_000 + ordinal,
                &format!("request id={ordinal} completed successfully"),
                vec![
                    MetadataField::new("service", if ordinal % 2 == 0 { "api" } else { "worker" }),
                    MetadataField::new("trace", &format!("trace-{ordinal}")),
                ],
                CompressionCohortId::new(ordinal % 3),
            )
        })
        .collect::<Vec<_>>();
    let prepared = prepare(&events);
    assert!(is_live_context(&prepared.transient_context));
    let live = decode_indexed_ingest_frames(
        &prepared.payload,
        Some(&prepared.transient_context),
        events.len() as u32,
    )
    .expect("live indexes install");
    let recovered = decode_indexed_ingest_frames(&prepared.payload, None, events.len() as u32)
        .expect("durable indexes recover");
    assert_eq!(live.len(), 3);
    assert_eq!(live.len(), recovered.len());
    for (live, recovered) in live.iter().zip(&recovered) {
        let live_index = match &live.index {
            FrameIndexSource::Live(index) => index.clone(),
            FrameIndexSource::Encoded(_) => panic!("live frames carry their index"),
        };
        let recovered_index = match &recovered.index {
            FrameIndexSource::Encoded(structural) => index_of(structural),
            FrameIndexSource::Live(_) => panic!("recovered frames carry no index"),
        };
        assert_eq!(live_index, recovered_index);
        assert!(check_frame_index(live, live_index.len() as u32).is_ok());
        assert!(check_frame_index(live, live_index.len() as u32 + 1).is_err());
        let structural = decompress_indexed_ingest_frame(live).expect("frame opens");
        assert_eq!(structural.len(), live.structural_bytes);
        let decoded = decode_events(&structural, live.cohort);
        assert_eq!(decoded.len(), live.record_count as usize);
        let api = live_index
            .iter()
            .zip(&decoded)
            .filter(|(mark, _)| **mark == b'a')
            .map(|(_, (_, event))| event);
        for event in api {
            assert!(event.fields.iter().any(|field| field.key == "service" && field.value == "api"));
        }
        assert_eq!(live.frame_id, recovered.frame_id);
        assert!(live.min_timestamp_unix_nanos <= live.max_timestamp_unix_nanos);
    }
}

#[test]
fn compressed_ingest_pack_rejects_corruption_and_wrong_counts() {
    let events = vec![OtlpLogEvent::new(1, "hello", Vec::new(), CompressionCohortId::new(7))];
    let mut encoded = prepare(&events).payload;
    assert!(validate_ingest_pack(&encoded, 2).is_err());
    let last = encoded.len() - 1;
    encoded[last] ^= 1;
    assert!(validate_ingest_pack(&encoded, 1).is_err());
    assert!(decode_ingest_groups(&encoded).is_err());
}

#[test]
fn single_cohort_packs_are_grouped_packs() {
    let group = || IngestGroupInput {
        cohort: CompressionCohortId::new(4),
        timestamps_unix_nanos: vec![5, 3],
        structural: b"two records".to_vec(),
        embedded_index: vec![1, 2, 3],
    };
    let single = prepare_single_cohort_ingest_pack(group(), MAX_FRAME_BYTES).expect("prepares");
    let grouped = prepare_grouped_ingest_pack(2, &vec![group()], MAX_FRAME_BYTES).expect("prepares");
    assert_eq!(single, grouped);
    let frames = decode_indexed_ingest_frames(&single.payload, None, 2).expect("decodes");
    assert_eq!(frames[0].min_timestamp_unix_nanos, 3);
    assert_eq!(frames[0].max_timestamp_unix_nanos, 5);
    assert!(!is_live_context(b"short"));
    let empty = prepare_grouped_ingest_pack(0, &Vec::new(), MAX_FRAME_BYTES).expect("prepares");
    assert_eq!(empty.payload.len(), 12);
    assert!(matches!(
        prepare_grouped_ingest_pack(2, &vec![group()], 12),
        Err(TelemetryError::RecordTooLarge)
    ));
}

#[test]
fn cohorts_keep_their_ordinals() {
    let groups = group_by_cohort(&vec![2, 0, 2]).expect("groups");
    assert_eq!(
        groups.iter().map(|group| (group.cohort, group.ordinals.clone())).collect::<Vec<_>>(),
        vec![(0, vec![1]), (2, vec![0, 2])]
    );
    assert_eq!(arrange_by_ordinal(&vec![2, 0, 1], 3).unwrap(), vec![1, 2, 0]);
    assert!(arrange_by_ordinal(&vec![0, 0], 2).is_err());
    assert!(arrange_by_ordinal(&vec![0, 2], 2).is_err());
    assert!(arrange_by_ordinal(&vec![0], 2).is_err());
    let plain = OtlpLogEvent::new(1, "hello", Vec::new(), CompressionCohortId::new(7));
    assert!(!plain.structural_log_metadata());
}

#[test]
fn envelope_round_trips_all_sections() {
    let envelope = TelemetryEnvelope::new(
        TelemetrySignal::Traces,
        "tenant-a",
        7,
        b"partition-key".to_vec(),
        b"signal-payload".to_vec(),
    )
    .unwrap();
    let encoded = envelope.encode().unwrap();
    assert_eq!(TelemetryEnvelope::decode(&encoded).unwrap(), envelope);
}

#[test]
fn checksum_covers_header_and_every_section() {
    let envelope = TelemetryEnvelope::new(
        TelemetrySignal::Metrics,
        "tenant-a",
        1,
        b"route".to_vec(),
        b"payload".to_vec(),
    )
    .unwrap();
    let mut encoded = envelope.encode().unwrap();
    *encoded.last_mut().unwrap() ^= 1;
    assert!(matches!(
        TelemetryEnvelope::decode(&encoded),
        Err(TelemetryError::InvalidTelemetryEnvelope("envelope checksum mismatch"))
    ));
}

#[test]
fn envelopes_are_refused_with_a_reason() {
    let make = |tenant, count, payload: &[u8]| {
        TelemetryEnvelope::new(TelemetrySignal::Logs, tenant, count, Vec::new(), payload.to_vec())
    };
    assert!(make("", 1, b"x").is_err());
    assert!(make("t", 0, b"x").is_err());
    assert!(make("t", 1, b"").is_err());
    let encoded = make("t", 1, b"x").unwrap().encode().unwrap();
    assert!(TelemetryEnvelope::is_encoded(&encoded));
    assert!(!TelemetryEnvelope::is_encoded(b"plain"));
    for length in 0..encoded.len() {
        assert!(TelemetryEnvelope::decode(&encoded[..length]).is_err());
    }
    for place in 0..encoded.len() {
        let mut damaged = encoded.clone();
        damaged[place] ^= 0x10;
        assert!(TelemetryEnvelope::decode(&damaged).is_err());
    }
}

#[test]
fn durable_catalog_survives_restart_and_allocates_monotonic_ids() {
    let state = DeleteState::new();
    let (state, first) =
        state.create("tenant-a", 1, 2, "{app=\"api\"}".to_owned(), 3).expect("create");
    assert_eq!(first, "0000000000000001");
    let bytes = b"an encoding of the state";
    let checksum = catalog_checksum(bytes);
    let state = load_state(1, state, bytes, &checksum).expect("recover");
    assert_eq!(state.list("tenant-a").len(), 1);
    let (state, second) =
        state.create("tenant-a", 4, 5, "{app=\"worker\"}".to_owned(), 6).expect("create");
    assert_eq!(second, "0000000000000002");
    let state = state.cancel("tenant-a", "0000000000000001").expect("cancel");
    assert_eq!(state.list("tenant-a").len(), 1);
    assert!(state.cancel("tenant-a", "0000000000000001").is_none());
}

#[test]
fn corrupt_catalog_fails_closed() {
    let bytes = b"an encoding of the state";
    let checksum = catalog_checksum(bytes);
    assert_eq!(checksum, blake3::hash(bytes).to_hex().to_string());
    assert_eq!(
        load_state(1, DeleteState::new(), bytes, "").unwrap_err().message,
        "delete catalog checksum does not match its state"
    );
    assert_eq!(
        load_state(2, DeleteState::new(), bytes, &checksum).unwrap_err().message,
        "unsupported delete catalog version 2"
    );
    let empty = DeleteState { next_request_id: 0, tenants: Vec::new() };
    assert_eq!(
        load_state(1, empty, bytes, &checksum).unwrap_err().message,
        "delete catalog next request ID must be nonzero"
    );
}

#[test]
fn replicated_deletes_replace_a_tenant() {
    let request = |id: &str, start, status: &str| DeleteRequest {
        request_id: id.to_owned(),
        start_time: start,
        end_time: 9,
        query: "{}".to_owned(),
        status: status.to_owned(),
        created_at: 1,
    };
    let state = DeleteState::new()
        .replace_tenant("t", vec![request("0f", 1, "received"), request("02", 1, "canceled")])
        .expect("replaces");
    assert_eq!(state.next_request_id, 16);
    assert_eq!(
        state.list("t").iter().map(|request| request.request_id.clone()).collect::<Vec<_>>(),
        ["02", "0f"]
    );
    let error = state.replace_tenant("", Vec::new()).unwrap_err();
    assert_eq!(error.kind, ApiErrorKind::BadRequest);
    assert!(state.replace_tenant("t", vec![request("1", 10, "received")]).is_err());
    assert!(state.replace_tenant("t", vec![request("1", 1, "done")]).is_err());
    assert!(state.replace_tenant("t", vec![request("", 1, "received")]).is_err());
    let twice = vec![request("1", 1, "received"), request("1", 2, "received")];
    assert!(state.replace_tenant("t", twice).is_err());
    assert!(state.replace_tenant("t", Vec::new()).unwrap().list("t").is_empty());
    assert_eq!(parse_hex(b"+fF"), Some(255));
    assert_eq!(parse_hex(b"xyz"), None);
    assert_eq!(hex_string(&[0, 171]), "00ab");
}

#[test]
fn dictionaries_are_published_once_and_cached() {
    let mut catalog = DictionaryCatalog::new();
    let placement = CompressionPlacementId::new(1);
    let payload = Arc::new(b"dictionary".to_vec());
    let published =
        catalog.publish(placement, DictionaryId::new(9), Arc::clone(&payload)).expect("publishes");
    assert_eq!(published.generation, catalog.snapshot().generation());
    assert!(matches!(
        catalog.publish(placement, DictionaryId::new(9), Arc::new(b"other".to_vec())),
        Err(TelemetryError::DictionaryIdConflict(_))
    ));
    assert!(matches!(
        catalog.publish(placement, DictionaryId::new(8), Arc::new(Vec::new())),
        Err(TelemetryError::EmptyDictionary)
    ));
    let snapshot = catalog.snapshot();
    assert_eq!(snapshot.dictionary_for(placement), Some((DictionaryId::new(9), payload)));
    assert_eq!(snapshot.assignments(), vec![(placement, DictionaryId::new(9))]);
    assert_eq!(snapshot.dictionaries().len(), 1);

    let mut cache = DictionaryCache::new(8).expect("cache");
    assert!(DictionaryCache::new(0).is_err());
    for id in 0..2 {
        cache.insert(DictionaryId::new(id), Arc::new(vec![0; 4])).expect("inserts");
    }
    assert!(cache.get(DictionaryId::new(0)).is_some());
    let inserted = cache.insert(DictionaryId::new(2), Arc::new(vec![0; 4])).expect("inserts");
    assert_eq!(inserted.evicted, vec![DictionaryId::new(1)]);
    assert!(cache.contains(DictionaryId::new(0)) && !cache.contains(DictionaryId::new(1)));
    assert_eq!((cache.len(), cache.stored_bytes(), cache.capacity_bytes()), (2, 8, 8));
    assert!(matches!(
        cache.insert(DictionaryId::new(3), Arc::new(vec![0; 9])),
        Err(TelemetryError::DictionaryTooLarge { bytes: 9, capacity: 8 })
    ));
}

#[test]
fn sealed_blocks_are_offloaded() {
    let descriptor = || BlockDescriptor {
        block_id: BlockId::new(0),
        stream_shard_id: ShardId::new(0),
        topic_partition: TopicPartition::new(TopicId::new(1), LogicalPartitionId::new(2)),
        source_compression_cohort: CompressionCohortId::new(0),
        placement_id: CompressionPlacementId::new(0),
        dictionary_id: None,
        compression_codec: CompressionCodec::Zstd,
        compression_level: 1,
        first_offset: LogicalOffset::new(0),
        last_offset: LogicalOffset::new(1),
        record_count: 2,
        source_bytes: 3,
        structural_bytes: 3,
        stored_bytes: 3,
        min_timestamp_unix_nanos: 0,
        max_timestamp_unix_nanos: 1,
        compression_temperature: 0,
        compression_shape_hash: 0,
        compression_temperature_variance_q8: 0,
        max_compression_temperature_deviation: 0,
        object_key: None,
        object_offset: None,
    };
    let mut catalog = BlockCatalog::new();
    assert!(catalog.is_empty());
    let sealed = catalog.seal(descriptor(), Arc::new(vec![1, 2, 3]));
    let other = catalog.seal(descriptor(), Arc::new(vec![4]));
    assert!(sealed.block_id.get() < other.block_id.get());
    assert_eq!(catalog.len(), 2);
    assert_eq!(catalog.staged_payload(sealed.block_id), Some(Arc::new(vec![1, 2, 3])));
    catalog
        .mark_offloaded_range(sealed.block_id, "key".to_owned(), 64)
        .expect("offloads");
    let descriptor = catalog.get(sealed.block_id).expect("known");
    assert_eq!(descriptor.object_key.as_deref(), Some("key"));
    assert_eq!(descriptor.object_offset, Some(64));
    assert!(catalog.staged_payload(sealed.block_id).is_none());
    assert!(matches!(
        catalog.mark_offloaded(BlockId::new(77), "key".to_owned()),
        Err(TelemetryError::UnknownBlock(77))
    ));
    assert_eq!(catalog.iter().len(), 2);
}

#[test]
fn generated_metric_corpus_has_128_distinct_series() {
    let corpus = Corpus::generate(256, &gauge_bits());
    let mut counts = BTreeMap::<SeriesFingerprint, usize>::new();
    for point in &corpus.points {
        *counts.entry(point.series_fingerprint()).or_default() += 1;
    }
    assert_eq!(counts.len(), 128);
    assert!(counts.values().all(|count| *count == 2));
}

#[test]
fn clickhouse_export_records_exact_lookup_inputs() {
    let corpus = Corpus::generate(128, &gauge_bits());
    let raws = vec![b"{}".to_vec(); 128];
    let traces = export_traces(&corpus.spans, &raws);
    let metrics = export_metrics(&corpus.points, &vec![0; 128], &raws).expect("exports");
    let series = corpus.points[0].series_fingerprint();
    let manifest = render_export_manifest(
        128,
        &traces,
        &metrics,
        corpus.spans[0].trace_id,
        series,
        corpus.resource.id(),
    );
    assert!(manifest.contains("records_per_signal=128\n"));
    assert!(manifest.contains("trace_lookup_rows=8\n"));
    assert!(manifest.contains("metric_lookup_rows=1\n"));
    let series_id = manifest
        .lines()
        .find_map(|line| line.strip_prefix("series_id="))
        .unwrap()
        .parse::<u128>()
        .unwrap();
    let series_id_hex =
        manifest.lines().find_map(|line| line.strip_prefix("series_id_hex=")).unwrap();
    assert_eq!(series_id_hex, format!("{series_id:032x}"));
    assert!(!traces.rows.is_empty() && !metrics.rows.is_empty());
    assert!(!traces.expected.is_empty() && !metrics.expected.is_empty());
    assert_eq!(mix(0), 0);
    assert_eq!(attribute_string(&corpus.spans[0].attributes, "missing"), b"");
    assert_eq!(attribute_integer(&corpus.spans[0].attributes, "missing"), None);
}

#[test]
fn stored_groups_keep_their_key_order() {
    let corpus = Corpus::generate(64, &gauge_bits());
    let groups = group_traces(&corpus.spans);
    assert_eq!(groups.len(), 8);
    assert!(groups.entries().iter().all(|(_, places)| places.len() == 8));
    let series = group_series(&corpus.points, &vec![3; 64]);
    assert_eq!(series.len(), 64);
    assert!(write_trace_key("a", TraceId(1)) < write_trace_key("a", TraceId(2)));
    assert!(write_trace_key("a", TraceId(2)) < write_trace_key("b", TraceId(1)));
    assert!(write_series_key(1, SeriesFingerprint(9)) < write_series_key(2, SeriesFingerprint(0)));
    let groups = group_by_key(&vec![b"b".to_vec(), b"a".to_vec(), b"b".to_vec()]);
    assert_eq!(groups.entries(), &vec![(b"a".to_vec(), vec![1]), (b"b".to_vec(), vec![0, 2])]);

    let blocks = pack_groups(&vec![vec![0], vec![1, 2]], &vec![8_388_608, 1, 1]);
    assert_eq!(blocks, vec![vec![0], vec![1, 2]]);
    let batches = split_batches(&(0..40_000).collect());
    assert_eq!(batches.iter().map(Vec::len).collect::<Vec<_>>(), [32_768, 7_232]);
    let mut spans = Corpus::generate(2, &gauge_bits()).spans;
    number_spans(&mut spans, 5);
    assert_eq!(spans[1].record_ref.offset.get(), 1);
    assert_eq!(spans[1].record_ref.topic_partition.partition_id.get(), 5);
    let envelope = wrap_batch(TelemetrySignal::Traces, 5, 2, b"payload".to_vec()).expect("wraps");
    assert_eq!(envelope.item_count, 2);
    assert_eq!(envelope.routing_metadata, 5u32.to_le_bytes());
}

#[test]
fn signal_arguments_are_checked() {
    let words = |words: &[&str]| words.iter().map(|word| (*word).to_owned()).collect();
    let settings = parse_settings(&words(&["--records", "700"])).expect("parses");
    assert_eq!(settings.records, 700);
    assert_eq!(
        parse_settings(&words(&["--records", "7"])).unwrap_err(),
        "--records must be at least 128, --iterations must be nonzero, and --server-shards must be in 1..=256"
    );
    assert!(parse_settings(&words(&["--records"])).is_err());
    assert!(parse_settings(&words(&["--unknown", "1"])).is_err());
    let framed = frame_blocks(&vec![(b"ab".to_vec(), b"c".to_vec())]);
    assert!(framed.ends_with(b"abc") || framed.ends_with(b"c"));
}

#[test]
fn identities_and_maps_remember() {
    let mut cache = IdentityCache::new(4);
    let first = cache.id(b"one".to_vec());
    assert_eq!(cache.id(b"one".to_vec()), first);
    assert_ne!(cache.id(b"two".to_vec()), first);
    let mut map = StringMap::new();
    map.insert("b".to_owned(), "1".to_owned());
    map.insert("a".to_owned(), "2".to_owned());
    map.insert("b".to_owned(), "3".to_owned());
    assert_eq!(map.len(), 2);
    assert_eq!(map.get("b").map(String::as_str), Some("3"));
    assert_eq!(map.pairs()[0].0, "a");
}
