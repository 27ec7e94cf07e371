use std::rc::Rc;

use shard_telemetry::block_results::{
    read_dictionary_assignments, read_manifest, write_dictionary_assignments, write_manifest,
    BlockResult,
};
use shard_telemetry::checksum::fnv1a64;
use shard_telemetry::dictionary::{CompressionPlacementId, DictionaryCatalog, DictionaryId};
use shard_telemetry::docker_blocks::{build_block_spans, read_block, FallbackLine};
use shard_telemetry::docker_json::{
    decode_common_json_message, parse_canonical_docker_json, DockerMessageCache,
};
use shard_telemetry::docker_time::{
    ascii_fraction_nanos, days_from_civil, eight_ascii_digits, is_leap_year,
    parse_ascii_docker_timestamp, parse_ascii_docker_timestamp_cached, parse_docker_timestamp,
    DockerTimestampPrefixCache,
};
use shard_telemetry::locality::{
    compress_groups, compress_log_block, container_lengths_fit, decode_locality_payload,
    describe_frame, order_by_offset, verify_decoded_records, DecodedStructuralRecord,
};
use shard_telemetry::records::MetadataField;
use shard_telemetry::structural_bench::{
    check_round_trip, next_block, placement_groups, process_block, progress_marks, query_metadata, BlockPlace,
    EncodedGroup,
};
use shard_telemetry::structural_report::{
    check_decoded, check_manifest, check_payload, check_query_block, dictionary_file_name,
    is_sampled, pack_file_name,
};
use shard_telemetry::structural_settings::parse_settings;
use shard_telemetry::zstd_frames::zstd_decompress;

fn make_entry(ordinal: u64, dictionary_id: Option<DictionaryId>) -> BlockResult {
    BlockResult {
        ordinal,
        source_offset: 0,
        input_bytes: 1,
        source_bytes: 1,
        record_count: 1,
        rejected_records: 0,
        rejected_bytes: 0,
        structural_bytes: 1,
        embedded_index_bytes: 0,
        structural_stored_bytes: 1,
        pack_worker: 0,
        pack_offset: 0,
        payload_checksum: 0,
        dictionary_id,
        structural_compression_nanos: 0,
    }
}

#[test]
fn parses_docker_rfc3339_nanos() {
    assert_eq!(
        parse_docker_timestamp("1970-01-01T00:00:00.123Z").expect("timestamp parses"),
        123_000_000
    );
    assert_eq!(
        parse_docker_timestamp("2024-02-29T01:02:03.123456789Z")
            .expect("leap-day timestamp parses"),
        1_709_168_523_123_456_789
    );
}

#[test]
fn docker_timestamps_are_refused_with_a_reason() {
    for input in [
        "",
        "2024-02-29 01:02:03Z",
        "2024-02-30T01:02:03Z",
        "2024-13-01T01:02:03Z",
        "2024-02-29T24:02:03Z",
        "2024-02-29T01:02:03+00:00",
        "2024-02-29T01:02:03.Z",
        "1969-12-31T23:59:59Z",
        "9999-01-01T00:00:00Z",
    ] {
        assert!(parse_docker_timestamp(input).is_err(), "{input}");
    }
    assert!(is_leap_year(2000) && !is_leap_year(1900));
    assert_eq!(days_from_civil(1970, 1, 1), 0);
    assert_eq!(days_from_civil(2000, 3, 1), 11_017);
    assert_eq!(days_from_civil(0, 1, 1), -719_528);
    assert_eq!(days_from_civil(-400, 3, 1), -719_468 - 146_097);
    assert_eq!(days_from_civil(1970, 13, 0), 364);
}

#[test]
fn canonical_docker_parser_reuses_exact_decoded_messages() {
    let first = br#"{"log":"quoted \"value\" and newline\n","stream":"stderr","time":"2024-02-29T01:02:03.123456789Z"}"#;
    let second = br#"{"log":"quoted \"value\" and newline\n","stream":"stderr","time":"2024-02-29T01:02:04.123456789Z"}"#;
    let mut cache = DockerMessageCache::new();
    let mut timestamp_cache = DockerTimestampPrefixCache::new();
    let (first_message, first_stream, first_timestamp) =
        parse_canonical_docker_json(first, &mut cache, &mut timestamp_cache)
            .expect("first line uses fast path");
    let (second_message, second_stream, second_timestamp) =
        parse_canonical_docker_json(second, &mut cache, &mut timestamp_cache)
            .expect("second line uses fast path");
    assert_eq!(first_message.as_str(), "quoted \"value\" and newline\n");
    assert_eq!(first_stream, "stderr");
    assert_eq!(second_stream, "stderr");
    assert_eq!(second_timestamp - first_timestamp, 1_000_000_000);
    assert!(Rc::ptr_eq(&first_message, &second_message));
}

#[test]
fn unicode_json_escapes_use_the_cached_fast_path() {
    let line = br#"{"log":"snowman \u2603 rocket \uD83D\uDE80\n","stream":"stdout","time":"2024-02-29T01:02:03.123456789Z"}"#;
    let mut cache = DockerMessageCache::new();
    let mut timestamp_cache = DockerTimestampPrefixCache::new();
    let (message, stream, _) = parse_canonical_docker_json(line, &mut cache, &mut timestamp_cache)
        .expect("Unicode line uses fast path");
    let parsed: serde_json::Value = serde_json::from_slice(line).expect("serde parses line");
    assert_eq!(message.as_str(), parsed["log"].as_str().expect("log is text"));
    assert_eq!(message.as_str(), "snowman \u{2603} rocket \u{1f680}\n");
    assert_eq!(stream, "stdout");
}

#[test]
fn broken_escapes_leave_the_fast_path() {
    for message in ["\\uD83D", "\\uDE80", "\\u12", "\\x", "\\"] {
        assert!(decode_common_json_message(message.as_bytes()).is_none(), "{message}");
    }
    assert_eq!(
        decode_common_json_message(b"tab\\t slash\\/ quote\\\"").as_deref(),
        Some("tab\t slash/ quote\"")
    );
}

#[test]
fn timestamp_parser_handles_fraction_widths_and_date_rollover() {
    let before_midnight =
        parse_ascii_docker_timestamp(b"2024-02-29T23:59:59.1Z").expect("first timestamp parses");
    let after_midnight = parse_ascii_docker_timestamp(b"2024-03-01T00:00:00.000000001Z")
        .expect("rollover timestamp parses");
    assert_eq!(after_midnight - before_midnight, 900_000_001);
    assert_eq!(
        parse_ascii_docker_timestamp(b"2024-03-01T00:00:00Z")
            .expect("whole-second timestamp parses"),
        after_midnight - 1
    );

    let mut cache = DockerTimestampPrefixCache::new();
    let first = parse_ascii_docker_timestamp_cached(b"2024-03-01T00:00:01.1Z", &mut cache)
        .expect("cached first timestamp parses");
    let second = parse_ascii_docker_timestamp_cached(b"2024-03-01T00:00:01.123456789Z", &mut cache)
        .expect("same-second timestamp parses");
    assert_eq!(second - first, 23_456_789);
    assert_eq!(cache.prefix.as_slice(), b"2024-03-01T00:00:01");
}

#[test]
fn fractional_timestamp_parser_scales_every_width() {
    for (digits, expected) in [
        (b"1".as_slice(), 100_000_000),
        (b"12".as_slice(), 120_000_000),
        (b"123".as_slice(), 123_000_000),
        (b"1234".as_slice(), 123_400_000),
        (b"12345".as_slice(), 123_450_000),
        (b"123456".as_slice(), 123_456_000),
        (b"1234567".as_slice(), 123_456_700),
        (b"12345678".as_slice(), 123_456_780),
        (b"123456789".as_slice(), 123_456_789),
    ] {
        assert_eq!(ascii_fraction_nanos(digits), Some(expected));
    }
    assert_eq!(ascii_fraction_nanos(b""), None);
    assert_eq!(ascii_fraction_nanos(b"1234567890"), None);
    assert_eq!(ascii_fraction_nanos(b"1234x"), None);
    assert_eq!(eight_ascii_digits(b"00000000"), Some(0));
    assert_eq!(eight_ascii_digits(b"99999999"), Some(99_999_999));
    for index in 0..8 {
        for byte in u8::MIN..=u8::MAX {
            if byte.is_ascii_digit() {
                continue;
            }
            let mut invalid = *b"12345678";
            invalid[index] = byte;
            assert_eq!(eight_ascii_digits(&invalid), None);
        }
    }
}

#[test]
fn canonical_parser_finds_every_supported_timestamp_width() {
    for timestamp in [
        "2024-03-01T00:00:00Z",
        "2024-03-01T00:00:00.1Z",
        "2024-03-01T00:00:00.12345Z",
        "2024-03-01T00:00:00.123456789Z",
    ] {
        let line = format!(
            "{{\"log\":\"contains T safely\\\\n\",\"stream\":\"stderr\",\"time\":\"{timestamp}\"}}"
        );
        let mut cache = DockerMessageCache::new();
        let mut timestamp_cache = DockerTimestampPrefixCache::new();
        let (_, stream, parsed_timestamp) =
            parse_canonical_docker_json(line.as_bytes(), &mut cache, &mut timestamp_cache)
                .expect("canonical line uses bounded timestamp probe");
        assert_eq!(stream, "stderr");
        assert_eq!(
            parsed_timestamp,
            parse_docker_timestamp(timestamp).expect("reference timestamp parses")
        );
    }
}

#[test]
fn deterministic_spans_skip_partial_edges_without_gaps() {
    let complete = [
        "{\"log\":\"alpha 1\\n\",\"stream\":\"stderr\",\"time\":\"2024-01-01T00:00:00.000000001Z\"}\n",
        "{\"log\":\"alpha 2\\n\",\"stream\":\"stderr\",\"time\":\"2024-01-01T00:00:00.000000002Z\"}\n",
        "{\"log\":\"alpha 3\\n\",\"stream\":\"stderr\",\"time\":\"2024-01-01T00:00:00.000000003Z\"}\n",
    ]
    .concat();
    let input = format!("partial prefix\n{complete}partial suffix");
    let content = input.as_bytes();

    let (source_start, spans) =
        build_block_spans(content, false, u64::MAX, 97).expect("spans build");
    let (_, repeated) = build_block_spans(content, false, u64::MAX, 97).expect("spans repeat");
    assert_eq!(spans, repeated);
    assert_eq!(source_start, "partial prefix\n".len() as u64);
    assert_eq!(spans.first().expect("first span").start, source_start);
    for (ordinal, span) in spans.iter().enumerate() {
        assert_eq!(span.ordinal, ordinal);
    }
    for adjacent in spans.windows(2) {
        assert_eq!(adjacent[0].start + adjacent[0].length as u64, adjacent[1].start);
    }
    let mut recovered = Vec::new();
    for span in spans {
        let start = span.start as usize;
        recovered.extend_from_slice(&content[start..start + span.length]);
    }
    assert_eq!(recovered, complete.as_bytes());
}

#[test]
fn payload_checksum_detects_changes() {
    let checksum = fnv1a64(b"durable payload");
    assert_eq!(checksum, fnv1a64(b"durable payload"));
    assert_ne!(checksum, fnv1a64(b"durable payloaD"));
}

#[test]
fn checksums_follow_the_published_function() {
    assert_eq!(fnv1a64(b""), 0xcbf2_9ce4_8422_2325);
    assert_eq!(fnv1a64(b"a"), 0xaf63_dc4c_8601_ec8c);
}

#[test]
fn dictionary_assignments_are_sparse_run_length_encoded() {
    let first_dictionary = DictionaryId::new(7);
    let second_dictionary = DictionaryId::new(8);
    let entries = vec![
        make_entry(0, None),
        make_entry(1, Some(first_dictionary)),
        make_entry(2, Some(first_dictionary)),
        make_entry(3, None),
        make_entry(4, Some(second_dictionary)),
    ];
    let bytes = write_dictionary_assignments(&entries).expect("assignments write");
    assert_eq!(bytes.len(), 17 + 2 * 32);

    let decoded = (0..entries.len() as u64).map(|ordinal| make_entry(ordinal, None)).collect();
    let decoded = read_dictionary_assignments(&bytes, decoded).expect("assignments read");
    assert_eq!(
        decoded.iter().map(|entry| entry.dictionary_id).collect::<Vec<_>>(),
        vec![None, Some(first_dictionary), Some(first_dictionary), None, Some(second_dictionary)]
    );
    assert!(write_dictionary_assignments(&vec![make_entry(0, None)]).is_none());
    assert!(read_dictionary_assignments(b"short", vec![make_entry(0, None)]).is_err());
}

#[test]
fn manifests_read_back_in_order() {
    let mut second = make_entry(1, None);
    second.source_offset = 1;
    second.payload_checksum = 77;
    let entries = vec![second, make_entry(0, None)];
    let manifest = write_manifest(&entries);
    assert_eq!(manifest.len(), 17 + 2 * 80);
    let read = read_manifest(&manifest).expect("manifest reads");
    assert_eq!(read.iter().map(|entry| entry.ordinal).collect::<Vec<_>>(), [0, 1]);
    assert_eq!(read[1].payload_checksum, 77);
    assert!(check_manifest(&read).is_ok());
    assert!(read_manifest(&manifest[..20]).is_err());
    assert!(read_manifest(b"SLOGPACK1").is_err());
}

#[test]
fn manifest_checks_name_the_fault() {
    let mut gap = make_entry(1, None);
    gap.source_offset = 5;
    assert_eq!(
        check_manifest(&vec![make_entry(0, None), gap]).unwrap_err(),
        "manifest source spans contain a gap or overlap"
    );
    assert_eq!(
        check_manifest(&vec![make_entry(1, None)]).unwrap_err(),
        "manifest block ordinals are not contiguous"
    );
    let entries = vec![make_entry(0, None)];
    assert!(check_query_block(&entries, 0, 1).is_ok());
    assert_eq!(
        check_query_block(&entries, 1, 1).unwrap_err(),
        "query index references an unknown manifest block"
    );
    assert_eq!(
        check_query_block(&entries, 0, 2).unwrap_err(),
        "query index block metadata does not match the manifest"
    );
    let mut entry = make_entry(4, None);
    entry.payload_checksum = fnv1a64(b"payload");
    assert!(check_payload(&entry, b"payload").is_ok());
    assert_eq!(
        check_payload(&entry, b"payloae").unwrap_err(),
        "payload checksum mismatch for block 4"
    );
    assert!(check_decoded(&entry, 1).is_ok());
    assert_eq!(
        check_decoded(&entry, 3).unwrap_err(),
        "sampled block 4 decoded 3 records, expected 1"
    );
    assert!(is_sampled(&entries, 0));
    assert_eq!(pack_file_name(3), "worker-03.pack");
    assert_eq!(dictionary_file_name(DictionaryId::new(255)), format!("{:032x}.zdict", 255));
}

#[test]
fn locality_container_round_trips_multiple_ordered_placement_groups() {
    let alpha = b"0\t1\talpha request 1\tstderr".to_vec();
    let beta = b"1\t2\tbeta request 2\tstdout".to_vec();
    let mut frames = Vec::new();
    for (placement, structural) in [(1, &alpha), (2, &beta)] {
        frames.push(
            compress_log_block(None, CompressionPlacementId::new(placement), structural, 0)
                .expect("group compresses"),
        );
    }
    let compressed = compress_groups(frames).expect("groups compress");
    assert!(compressed.payload.starts_with(b"SLOGLOC1"));
    assert_eq!(compressed.dictionary_id, None);
    assert_eq!(compressed.structural_bytes, (alpha.len() + beta.len()) as u64);
    assert!(container_lengths_fit(&compressed.payload));
    let decoded =
        decode_locality_payload(&compressed.payload, compressed.structural_bytes, None)
            .expect("container decodes");
    assert_eq!(decoded, vec![alpha, beta]);
    assert_eq!(
        decode_locality_payload(&compressed.payload, compressed.structural_bytes, Some(b"dict"))
            .unwrap_err(),
        "a locality container cannot use one shared dictionary"
    );
}

#[test]
fn dictionary_blocks_need_their_dictionary() {
    let dictionary = b"a dictionary of request words, request words and more request words".to_vec();
    let mut catalog = DictionaryCatalog::new();
    let placement = CompressionPlacementId::new(88);
    catalog
        .publish(placement, DictionaryId::new(5), std::sync::Arc::new(dictionary.clone()))
        .expect("dictionary publishes");
    let snapshot = catalog.snapshot();
    let structural = b"request words and more request words, seven times over".to_vec();
    let compressed = compress_log_block(Some(&*snapshot), placement, &structural, 0)
        .expect("dictionary block compresses");
    assert_eq!(compressed.dictionary_id, Some(DictionaryId::new(5)));
    let decoded = decode_locality_payload(
        &compressed.payload,
        structural.len() as u64,
        Some(dictionary.as_slice()),
    )
    .expect("dictionary frame decompresses");
    assert_eq!(decoded, vec![structural]);
    let other = compress_log_block(None, placement, b"plain", 0).expect("compresses");
    assert_eq!(
        compress_groups(vec![compressed, other]).unwrap_err(),
        "real-time dictionaries cannot be combined with locality containers yet"
    );
}

#[test]
fn refused_groups_end_a_block() {
    let mut damaged = vec![0x37, 0xa4, 0x30, 0xec];
    damaged.resize(64, 0xff);
    let mut catalog = DictionaryCatalog::new();
    let placement = CompressionPlacementId::new(88);
    catalog
        .publish(placement, DictionaryId::new(5), std::sync::Arc::new(damaged))
        .expect("dictionary publishes");
    let snapshot = catalog.snapshot();
    let complaint = compress_log_block(Some(&*snapshot), placement, b"words", 0).unwrap_err();
    let block = read_block(&Vec::new(), 0, &Vec::new());
    let place = || BlockPlace { ordinal: 2, source_offset: 0, input_bytes: 0 };
    let group = |placement_id| EncodedGroup {
        placement_id,
        structural: b"words".to_vec(),
        embedded_index_bytes: 0,
    };
    let groups = vec![group(CompressionPlacementId::new(1)), group(placement)];
    assert_eq!(
        process_block(place(), &block, &groups, Some(&*snapshot), 0).unwrap_err(),
        complaint
    );

    let (result, payload) =
        process_block(place(), &block, &Vec::new(), Some(&*snapshot), 9).expect("nothing to refuse");
    assert_eq!(payload, b"SLOGLOC1\0\0\0\0");
    assert_eq!((result.ordinal, result.structural_compression_nanos), (2, 9));

    let bytes = std::sync::Arc::new(vec![1, 2]);
    let frame = describe_frame(Ok(vec![3]), Some((DictionaryId::new(5), bytes.clone())), 8, 4)
        .expect("a frame");
    assert_eq!((frame.structural_len, frame.embedded_index_bytes), (8, 4));
    assert_eq!(frame.payload, vec![3]);
    assert_eq!(frame.dictionary_id, Some(DictionaryId::new(5)));
    assert_eq!(frame.dictionary_payload, Some(bytes));
    assert_eq!(
        describe_frame(Err("no memory".to_owned()), None, 8, 4).unwrap_err(),
        "no memory"
    );
}

#[test]
fn malformed_complete_records_are_counted_and_skipped() {
    let first = b"{\"log\":\"one\\n\",\"stream\":\"stderr\",\"time\":\"2024-01-01T00:00:00.000000001Z\"}\n";
    let malformed = b"{not-json}\n";
    let second = b"{\"log\":\"two\\n\",\"stream\":\"stderr\",\"time\":\"2024-01-01T00:00:00.000000002Z\"}\n";
    let mut raw = Vec::new();
    raw.extend_from_slice(first);
    raw.extend_from_slice(malformed);
    raw.extend_from_slice(second);
    let fallbacks = vec![None, None, None];
    let block = read_block(&raw, 0, &fallbacks);
    assert_eq!(block.records[1].offset, (first.len() + malformed.len()) as u64);
    let structural = block
        .records
        .iter()
        .map(|record| format!("{}\t{}", record.offset, record.message))
        .collect::<Vec<_>>()
        .concat()
        .into_bytes();
    let groups = vec![EncodedGroup {
        placement_id: CompressionPlacementId::new(0),
        structural: structural.clone(),
        embedded_index_bytes: 0,
    }];
    let (result, payload) = process_block(
        BlockPlace { ordinal: 0, source_offset: 0, input_bytes: raw.len() as u64 },
        &block,
        &groups,
        None,
        5,
    )
    .expect("block processes");

    assert_eq!(result.record_count, 2);
    assert_eq!(result.rejected_records, 1);
    assert_eq!(result.rejected_bytes, malformed.len() as u64);
    assert_eq!(result.source_bytes, (first.len() + second.len()) as u64);
    assert_eq!(result.payload_checksum, fnv1a64(&payload));
    assert_eq!(
        zstd_decompress(&payload, result.structural_bytes as usize).expect("decompresses"),
        structural
    );
}

#[test]
fn verified_blocks_come_back_as_they_were() {
    let mut raw = Vec::new();
    for (index, message) in ["one", "two", "three"].iter().enumerate() {
        raw.extend_from_slice(
            format!(
                "{{\"log\":\"{message}\",\"stream\":\"stderr\",\"time\":\"2024-01-01T00:00:0{index}Z\"}}\n"
            )
            .as_bytes(),
        );
    }
    let block = read_block(&raw, 0, &vec![None, None, None]);
    let decoded = |order: [usize; 3]| {
        order
            .iter()
            .map(|at| DecodedStructuralRecord {
                offset: block.records[*at].offset,
                timestamp_unix_nanos: block.records[*at].timestamp_unix_nanos,
                message: block.records[*at].message.as_str().to_owned(),
                fields: vec![MetadataField::new("docker.stream", "stderr")],
            })
            .collect::<Vec<_>>()
    };
    assert_eq!(order_by_offset(&decoded([2, 0, 1])), vec![1, 2, 0]);
    let processed = || (make_entry(7, None), vec![1, 2, 3]);
    let failed = "structural first-block round trip failed";
    let check = |verify, collated, decoded| check_round_trip(processed(), verify, collated, decoded, &block);
    assert_eq!(check(true, true, Ok(decoded([2, 0, 1]))).expect("collated"), processed());
    assert_eq!(check(true, false, Ok(decoded([0, 1, 2]))).expect("in order"), processed());
    assert_eq!(check(true, false, Ok(decoded([2, 0, 1]))).unwrap_err(), failed);
    assert_eq!(check(true, true, Ok(decoded([0, 1, 1]))).unwrap_err(), failed);
    assert_eq!(check(true, true, Ok(Vec::new())).unwrap_err(), failed);
    assert_eq!(check(true, true, Err("damaged".to_owned())).unwrap_err(), "damaged");
    assert_eq!(check(false, true, Err("damaged".to_owned())).expect("not looked at"), processed());
}

#[test]
fn fallback_lines_are_read_where_the_fast_path_stops() {
    let raw = b"{\"stream\":\"stderr\",\"log\":\"one\",\"time\":\"2024-01-01T00:00:00Z\"}\n".to_vec();
    let fallbacks = vec![Some(FallbackLine {
        log: "one".to_owned(),
        stream: "stderr".to_owned(),
        time: "2024-01-01T00:00:00Z".to_owned(),
    })];
    let block = read_block(&raw, 100, &fallbacks);
    assert_eq!(block.records.len(), 1);
    assert_eq!(block.records[0].offset, 100);
    assert_eq!(block.records[0].message.as_str(), "one");
    assert_eq!(block.accepted_source_bytes, raw.len() as u64);
    let metadata = query_metadata(3, &block.records).expect("describes").expect("records");
    assert_eq!(metadata.block_ordinal, 3);
    assert_eq!(metadata.first_offset, 100);
    assert_eq!(metadata.record_count, 1);
    assert!(query_metadata(3, &Vec::new()).expect("nothing").is_none());

    let decoded = vec![DecodedStructuralRecord {
        offset: 100,
        timestamp_unix_nanos: block.records[0].timestamp_unix_nanos,
        message: "one".to_owned(),
        fields: vec![MetadataField::new("docker.stream", "stderr")],
    }];
    assert!(verify_decoded_records(&decoded, &block.records).is_ok());
    assert_eq!(
        verify_decoded_records(&Vec::new(), &block.records).unwrap_err(),
        "structural first-block round trip failed"
    );
}

#[test]
fn blocks_are_dealt_and_grouped() {
    assert_eq!(next_block(3, 4), 7);
    assert_eq!(next_block(usize::MAX, 4), usize::MAX);
    let groups = placement_groups(&vec![9, 4, 9], 1).expect("groups");
    assert_eq!(
        groups.iter().map(|group| (group.cohort, group.ordinals.clone())).collect::<Vec<_>>(),
        vec![(4, vec![1]), (9, vec![0, 2])]
    );
    assert_eq!(placement_groups(&Vec::new(), 6).expect("home")[0].cohort, 6);
    assert!(progress_marks(0, 1).is_empty());
}

#[test]
fn structural_arguments_are_checked() {
    let arguments = |words: &[&str]| words.iter().map(|word| (*word).to_owned()).collect();
    let settings = parse_settings(&arguments(&[
        "in.log",
        "--workers",
        "3",
        "--block-bytes",
        "4MiB",
        "--index",
        "persistent",
        "--dictionary",
        "realtime",
    ]))
    .expect("parses");
    assert_eq!(settings.workers, 3);
    assert_eq!(settings.block_bytes, 4 * 1024 * 1024);
    assert!(settings.persistent_query_index && settings.realtime_dictionary);
    assert_eq!(
        parse_settings(&arguments(&["in", "--workers", "0"])).unwrap_err(),
        "byte limits must be nonzero"
    );
    assert_eq!(
        parse_settings(&arguments(&["in", "--locality", "maybe"])).unwrap_err(),
        "--locality must be enabled or disabled, got maybe"
    );
    assert_eq!(
        parse_settings(&arguments(&["in", "--locality", "enabled", "--dictionary", "realtime"]))
            .unwrap_err(),
        "the real-time dictionary benchmark currently requires --locality disabled"
    );
    assert_eq!(
        parse_settings(&arguments(&["in", "--nope"])).unwrap_err(),
        "unknown argument: --nope"
    );
}
