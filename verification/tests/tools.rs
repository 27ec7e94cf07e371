use shard_telemetry::bench_settings::{
    check_offload, parse_locality_settings, parse_offload_settings, parse_query_settings,
    parse_tier_cache_settings, select_ranges,
};
use shard_telemetry::byte_map::ByteMap;
use shard_telemetry::compression_bench::{
    accept_line, parse_settings as parse_compression_settings, DictionarySamples, RawCompressor,
};
use shard_telemetry::interleave::{
    parse_settings as parse_interleave_settings, InterleaveSettings, Interleaver, LineOutcome,
};
use shard_telemetry::latency::{median, percentile, ranked, sort_samples, tail};
use shard_telemetry::load::{
    check_plan, docker_stream, worker_route_identity, worker_source, worker_span, DockerLogStream,
    LoadBatch, LoadPlan, LoadProtocol,
};
use shard_telemetry::load_requests::{
    check_acknowledgement, content_length, deal_entries, is_accepted, parse_load_timestamp,
    render_push_request, PendingRequests,
};
use shard_telemetry::locality::DecodedStructuralRecord;
use shard_telemetry::pack_query::{
    find_entry, group_hits, open_payload, order_materialized, page_is_complete, read_pack_manifest,
    render_result, verify_matches, write_hex, PageLimit, QueryHit, QueryProgress, QueryStep,
};
use shard_telemetry::query_settings::{
    check_secret, check_server, parse_pack_query_settings, parse_pair, ServerPlan,
};
use shard_telemetry::records::MetadataField;
use shard_telemetry::template::{extract_terms, is_variable, split_template};
use shard_telemetry::template_bench::{
    render_compression_report, CompressionResults, LayoutFigures, TemplateCompressor,
};
use shard_telemetry::template_encoder::{encode_term_index, flush_terms, TemplateEncoder};
use shard_telemetry::workloads::{
    count_matches, decode_message, expected_matches, loki_line, query_message,
};
use shard_telemetry::zstd_frames::zstd_compress;

fn arguments(words: &[&str]) -> Vec<String> {
    words.iter().map(|word| (*word).to_owned()).collect()
}

#[test]
fn template_encoding_replaces_only_variable_tokens() {
    let (template, values) = split_template(b"INFO block=blk_123 retry count=4\n");
    assert_eq!(template, b"INFO \x1e retry \x1e\n");
    assert_eq!(values, vec![b"block=blk_123".as_slice(), b"count=4".as_slice()]);
}

#[test]
fn static_terms_ignore_variable_values() {
    assert_eq!(
        extract_terms(b"ERROR \x1e failed"),
        vec![b"error".to_vec(), b"failed".to_vec()]
    );
}

#[test]
fn templates_are_numbered_once() {
    let mut encoder = TemplateEncoder::new();
    let mut output = Vec::new();
    let mut terms = ByteMap::new();
    encoder.encode_record(b"ERROR code=1\n", &mut output, &mut terms);
    encoder.encode_record(b"ERROR code=22\n", &mut output, &mut terms);
    encoder.encode_record(b"INFO\n", &mut output, &mut terms);
    assert_eq!(encoder.template_count(), 2);
    assert_eq!(encoder.encoded_templates(), b"\x08ERROR \x1e\n\x05INFO\n");
    assert_eq!(output, b"\x00\x01\x06code=1\x00\x01\x07code=22\x01\x00");
    assert!(is_variable(b"a1") && !is_variable(b"ab"));

    let mut index = ByteMap::new();
    flush_terms(&mut terms, &mut index, 0);
    assert_eq!(terms.len(), 0);
    encoder.encode_record(b"ERROR code=3\n", &mut output, &mut terms);
    flush_terms(&mut terms, &mut index, 3);
    assert_eq!(encode_term_index(&index), b"\x05error\x02\x00\x03\x04info\x01\x00");
}

#[test]
fn byte_maps_keep_byte_order() {
    let mut map = ByteMap::new();
    map.insert(b"b".to_vec(), 1u32);
    map.insert(b"a".to_vec(), 2u32);
    map.insert(b"b".to_vec(), 3u32);
    assert_eq!(map.get(b"b"), Some(&3));
    assert_eq!(map.get(b"c"), None);
    assert_eq!(map.entries(), &vec![(b"a".to_vec(), 2), (b"b".to_vec(), 3)]);
}

#[test]
fn lines_fill_blocks_until_the_limit() {
    let settings = parse_compression_settings(&arguments(&[
        "in.log",
        "--limit-bytes",
        "30",
        "--block-bytes",
        "16",
    ]))
    .expect("parses");
    let mut raw = RawCompressor::new(&settings, Vec::new());
    assert_eq!(raw.add_line(b"0123456789\n"), Ok(true));
    assert_eq!(raw.totals.blocks, 0);
    assert_eq!(raw.add_line(b"0123456789\n"), Ok(true));
    assert_eq!(raw.totals.blocks, 1);
    assert_eq!(raw.add_line(b"0123456789\n"), Ok(false));
    let totals = raw.finish().expect("finishes");
    assert_eq!((totals.source_bytes, totals.blocks), (22, 1));
    assert!(totals.stored_bytes > 0);

    let mut templates = TemplateCompressor::new();
    assert_eq!(templates.add_line(b"ERROR code=1\n", 30, 8), Ok(true));
    assert_eq!(templates.block_id, 1);
    assert_eq!(templates.add_line(b"INFO\n", 30, 80), Ok(true));
    assert_eq!(templates.add_line(b"ERROR code=12345\n", 30, 8), Ok(false));
    templates.store_rest().expect("stores");
    let totals = templates.finish().expect("finishes");
    assert_eq!((totals.source_bytes, totals.blocks), (18, 2));
    assert_eq!((totals.template_count, totals.index_terms), (2, 2));
    assert_eq!(totals.total_bytes(), totals.payload_bytes() + totals.index_bytes);

    let mut source_bytes = u64::MAX - 1;
    assert!(accept_line(&mut source_bytes, 10, u64::MAX));
    assert_eq!(source_bytes, u64::MAX);
}

#[test]
fn compressor_results_are_counted_or_passed_on() {
    let settings = parse_compression_settings(&arguments(&["in.log"])).expect("parses");
    let mut raw = RawCompressor::new(&settings, Vec::new());
    assert_eq!(raw.add_line(b"line\n"), Ok(true));
    assert_eq!(raw.count_frame(Err("no memory".to_owned())), Err("no memory".to_owned()));
    assert_eq!((raw.block.len(), raw.totals.stored_bytes, raw.totals.blocks), (5, 0, 0));
    assert_eq!(raw.count_frame(Ok(vec![1, 2, 3])), Ok(()));
    assert_eq!((raw.block.len(), raw.totals.stored_bytes, raw.totals.blocks), (0, 3, 1));

    let mut templates = TemplateCompressor::new();
    assert_eq!(templates.add_line(b"ERROR\n", 30, 80), Ok(true));
    assert_eq!(templates.count_frame(Err("no memory".to_owned())), Err("no memory".to_owned()));
    assert_eq!((templates.record_bytes, templates.blocks), (0, 0));
    assert!(!templates.record_block.is_empty());
    assert_eq!(templates.count_frame(Ok(vec![1, 2, 3, 4])), Ok(()));
    assert_eq!((templates.record_bytes, templates.blocks), (4, 1));
    assert!(templates.record_block.is_empty());
    let totals = templates.totals(&vec![0; 7], &vec![0; 9]);
    assert_eq!((totals.record_bytes, totals.template_bytes, totals.index_bytes), (4, 7, 9));
    assert_eq!((totals.source_bytes, totals.template_count, totals.index_terms), (6, 1, 1));

    templates.block_id = u32::MAX;
    assert_eq!(
        templates.add_line(b"ERROR\n", 30, 1),
        Err("template block identifier overflow".to_owned())
    );
    assert_eq!((templates.block_id, templates.blocks), (u32::MAX, 2));
}

#[test]
fn damaged_dictionaries_refuse_lines() {
    let settings = parse_compression_settings(&arguments(&["in.log"])).expect("parses");
    let mut damaged = vec![0x37, 0xa4, 0x30, 0xec];
    damaged.resize(64, 0xff);
    let mut raw = RawCompressor::new(&settings, damaged);
    assert_eq!(raw.add_line(b"line\n"), Ok(true));
    assert!(raw.finish().is_err());
    assert_eq!((raw.block.len(), raw.totals.blocks), (5, 0));
}

#[test]
fn dictionaries_need_lines_enough() {
    let mut samples = DictionarySamples::new();
    samples.add_line(Vec::new());
    samples.add_line(b"one\n".to_vec());
    assert!(samples.wants_more());
    assert_eq!((samples.lines.len(), samples.sampled), (1, 4));
    assert_eq!(
        samples.train().unwrap_err(),
        "input has too few lines to train a zstd dictionary"
    );
    for index in 0..4_000u64 {
        samples.add_line(
            format!("request {index} of worker {} finished in {} ms\n", index % 7, index * 31 % 97)
                .into_bytes(),
        );
    }
    let dictionary = samples.train().expect("trains");
    assert!(!dictionary.is_empty() && dictionary.len() <= 112 * 1024);
}

#[test]
fn compression_arguments_are_checked() {
    assert_eq!(
        parse_compression_settings(&arguments(&["-"])).unwrap_err(),
        "stdin requires --spool-stdin-to PATH so every layout reads identical input"
    );
    assert_eq!(
        parse_compression_settings(&arguments(&["in", "--spool-stdin-to", "x"])).unwrap_err(),
        "--spool-stdin-to is valid only when input is -"
    );
    assert_eq!(
        parse_compression_settings(&arguments(&["in", "--limit-bytes", "0"])).unwrap_err(),
        "byte limits must be nonzero"
    );
    assert_eq!(
        parse_compression_settings(&arguments(&["in", "--what"])).unwrap_err(),
        "unknown argument --what"
    );
}

#[test]
fn compression_report_compares_layouts() {
    let settings = parse_compression_settings(&arguments(&["in.log"])).expect("parses");
    let raw = RawCompressor::new(&settings, Vec::new()).totals;
    let figures = |ratio: &str| LayoutFigures { ratio: ratio.to_owned(), percent: "50.00".to_owned() };
    let mut templates = TemplateCompressor::new();
    templates.store_rest().expect("nothing to store");
    let results = CompressionResults {
        raw,
        raw_with_dictionary: raw,
        dictionary_bytes: 7,
        template: templates.finish().expect("finishes"),
        raw_figures: figures("1.00"),
        dictionary_figures: figures("2.00"),
        payload_figures: figures("3.00"),
        total_figures: figures("4.00"),
    };
    let report = render_compression_report(&settings, &results);
    assert!(report.starts_with(
        "shard-telemetry real-log compression benchmark\ninput: in.log\nsource bytes: 0\nblock target: 8388608\ndictionary bytes: 7\nzstd block payload: 0 bytes (1.00x, 50.00% of source)\nzstd + trained dictionary (dictionary included): 7 bytes (2.00x, 50.00% of source)\n"
    ));
    assert!(report.ends_with("which belong in metadata columns."));
}

#[test]
fn requires_multiple_inputs() {
    let settings = InterleaveSettings {
        output: "out".to_owned(),
        inputs: vec!["one".to_owned()],
        limit_bytes: 1,
    };
    assert_eq!(settings.inputs.len(), 1);
    assert_eq!(
        parse_interleave_settings(&arguments(&["out", "one"])).unwrap_err(),
        "at least two input logs are required"
    );
}

#[test]
fn merged_lines_stop_at_the_limit() {
    let settings =
        parse_interleave_settings(&arguments(&["out", "one", "--limit-bytes", "9", "two"]))
            .expect("parses");
    assert_eq!(settings.inputs, ["one".to_owned(), "two".to_owned()]);
    let mut merge = Interleaver::new(2);
    assert_eq!(merge.take_line(0, b"abc\n", settings.limit_bytes), LineOutcome::Written);
    assert_eq!(merge.take_line(1, b"partial", settings.limit_bytes), LineOutcome::Closed);
    assert_eq!(merge.active, [true, false]);
    assert_eq!(merge.take_line(0, b"defghi\n", settings.limit_bytes), LineOutcome::Full);
    assert_eq!(merge.take_line(0, b"", settings.limit_bytes), LineOutcome::Closed);
    assert!(!merge.is_active());
    assert_eq!((merge.written, merge.records), (4, 1));
    assert_eq!(
        parse_interleave_settings(&arguments(&["out", "a", "b", "--limit-bytes", "0"])).unwrap_err(),
        "--limit-bytes must be nonzero"
    );
    assert!(parse_interleave_settings(&arguments(&[])).unwrap_err().starts_with("usage: "));
}

#[test]
fn workers_use_distinct_route_identities() {
    assert_ne!(worker_source(0), worker_source(1));
    assert_ne!(worker_route_identity(0), worker_route_identity(1));
}

#[test]
fn route_identities_are_length_prefixed() {
    assert_eq!(worker_source(12), "clickhouse-docker-12");
    let mut expected = 6u64.to_le_bytes().to_vec();
    expected.extend_from_slice(b"source");
    expected.extend_from_slice(&20u64.to_le_bytes());
    expected.extend_from_slice(b"clickhouse-docker-12");
    assert_eq!(worker_route_identity(12), expected);
    assert_eq!(worker_span(100, 0, 3), (0, 33));
    assert_eq!(worker_span(100, 2, 3), (66, 100));
}

#[test]
fn load_plans_are_checked() {
    let plan = LoadPlan {
        workers: 1,
        batch_bytes: 1_024,
        pipeline_depth: 64,
        partitions: 4,
        partitions_per_request: 4,
        protocol: LoadProtocol::Native,
        retryable: false,
    };
    assert!(check_plan(&plan).is_ok());
    assert!(check_plan(&LoadPlan { pipeline_depth: 65, ..plan }).is_err());
    assert!(check_plan(&LoadPlan { retryable: true, ..plan }).is_err());
    assert!(
        check_plan(&LoadPlan { retryable: true, partitions_per_request: 1, ..plan }).is_ok()
    );
}

#[test]
fn batches_render_for_their_protocol() {
    let batch = LoadBatch::new(LoadProtocol::Loki);
    assert!(batch.is_empty());
    let batch = batch.push(5, "a \"b\"\n", "stderr").push(6, "c", "");
    assert!(!batch.is_empty());
    match &batch {
        LoadBatch::Loki { values, records } => {
            assert_eq!(*records, 2);
            assert_eq!(
                values,
                "[\"5\",\"a \\\"b\\\"\\n\",{\"docker_stream\":\"stderr\"}],[\"6\",\"c\"]"
            );
            assert_eq!(batch.estimated_bytes(), values.len());
        }
        LoadBatch::Native { .. } => panic!("protocol changed"),
    }
    let batch = LoadBatch::new(LoadProtocol::Native).push(5, "abc", "stdout");
    assert_eq!(batch.estimated_bytes(), 3 + 6 + 32);
    assert_eq!(docker_stream(""), DockerLogStream::Empty);
    assert_eq!(docker_stream("stderr"), DockerLogStream::Stderr);
    assert_eq!(docker_stream("x"), DockerLogStream::Other("x".to_owned()));
}

#[test]
fn load_timestamps_are_read() {
    assert_eq!(
        parse_load_timestamp("2024-02-29T01:02:03.123456789Z").unwrap(),
        1_709_168_523_123_456_789
    );
    assert_eq!(parse_load_timestamp("1970-01-01T00:00:01Z").unwrap(), 1_000_000_000);
    assert_eq!(
        parse_load_timestamp("nope").unwrap_err(),
        "unsupported Docker timestamp: nope"
    );
    assert_eq!(
        parse_load_timestamp("1970-01-01T00:00:01+1").unwrap_err(),
        "unsupported Docker timestamp timezone: 1970-01-01T00:00:01+1"
    );
    assert_eq!(
        parse_load_timestamp("1970-01-01T00:00:61Z").unwrap_err(),
        "invalid Docker timestamp: 1970-01-01T00:00:61Z"
    );
    assert_eq!(
        parse_load_timestamp("197x-01-01T00:00:01Z").unwrap_err(),
        "timestamp contains a non-digit"
    );
    assert_eq!(
        parse_load_timestamp("9999-01-01T00:00:01Z").unwrap_err(),
        "timestamp nanoseconds overflow"
    );
    assert_eq!(content_length("Content-LENGTH: 12 \r\n"), Ok(Some(12)));
    assert_eq!(content_length("Host: 12\r\n"), Ok(None));
    assert_eq!(content_length("content-length: x\r\n").unwrap_err(), "invalid digit found in string");
}

#[test]
fn requests_are_dealt_and_settled() {
    assert_eq!(deal_entries(5, 2), vec![vec![0, 2, 4], vec![1, 3]]);
    let mut pending = PendingRequests::new();
    for id in [1, 2, 3] {
        pending.note(id);
    }
    assert!(pending.settle(1).is_ok());
    assert_eq!(pending.ids, [3, 2]);
    assert_eq!(pending.settle(9).unwrap_err(), "native push returned unknown request id 9");
    assert!(check_acknowledgement(1, 1).is_ok());
    assert_eq!(
        check_acknowledgement(0, 1).unwrap_err(),
        "native append returned an unexpected partition count"
    );
    let (request, length) = render_push_request("host", "tenant", 7, "src", "[]");
    let body = "{\"streams\":[{\"stream\":{\"source\":\"src\"},\"values\":[[]]}]}";
    assert_eq!(length, body.len());
    assert_eq!(
        request,
        format!("POST /loki/api/v1/push HTTP/1.1\r\nHost: host\r\nContent-Type: application/json\r\nX-Scope-OrgID: tenant\r\nX-ShardTelemetry-Request-ID: 7\r\nContent-Length: {length}\r\nConnection: keep-alive\r\n\r\n{body}")
    );
    assert!(is_accepted("HTTP/1.1 204 No Content\r\n"));
    assert!(!is_accepted("HTTP/1.1 500 Oops\r\n"));
}

#[test]
fn percentiles_follow_their_rules() {
    let samples = sort_samples(vec![5, 1, 4, 2, 3]);
    assert_eq!(samples, [1, 2, 3, 4, 5]);
    assert_eq!(percentile(&samples, 50), 3);
    assert_eq!(percentile(&samples, 99), 4);
    assert_eq!(percentile(&Vec::new(), 50), 0);
    assert_eq!(ranked(&samples, 50, 100), 3);
    assert_eq!(ranked(&samples, 99, 100), 5);
    assert_eq!(ranked(&samples, 0, 100), 1);
    assert_eq!(median(&samples), 3);
    assert_eq!(tail(&samples), 5);
}

#[test]
fn hits_are_grouped_and_ordered() {
    let hit = |block_ordinal, record_ordinal| QueryHit { block_ordinal, record_ordinal };
    let hits = vec![hit(2, 5), hit(1, 0), hit(2, 3), hit(2, 5)];
    let groups = group_hits(&hits);
    assert_eq!(
        groups
            .iter()
            .map(|group| (group.block_ordinal, group.record_ordinals.clone()))
            .collect::<Vec<_>>(),
        vec![(1, vec![0]), (2, vec![3, 5])]
    );
    let decoded = vec![hit(1, 0), hit(2, 3), hit(2, 5)];
    assert_eq!(order_materialized(&hits[..3].to_vec(), &decoded).unwrap(), [2, 0, 1]);
    assert_eq!(
        order_materialized(&hits, &decoded).unwrap_err(),
        "selective decode missed a planned record"
    );
    assert!(order_materialized(&vec![hit(9, 9)], &decoded).is_err());
}

#[test]
fn pages_stop_once_complete() {
    let page = PageLimit { by_offset: true, limit: Some(3) };
    assert!(page_is_complete(page, 3) && !page_is_complete(page, 2));
    assert!(!page_is_complete(PageLimit { by_offset: false, limit: Some(3) }, 9));
    let mut progress = QueryProgress::new();
    assert_eq!(progress.next_step(page, 4, 0), QueryStep::Finish);
    assert_eq!(progress.next_step(page, 4, 5), QueryStep::ReadBlock);
    assert!(progress.absorb(page, 7, 2));
    assert_eq!(progress.next_step(page, 1, 5), QueryStep::ReadBlock);
    assert_eq!(progress.next_step(page, 4, 5), QueryStep::ReadRest);
    assert!(progress.absorb(page, 1, 1));
    assert!(!progress.absorb(page, 1, 1));
    assert_eq!((progress.candidate_blocks, progress.candidate_hits, progress.records), (3, 9, 3));
    assert_eq!(progress.next_step(page, 4, 5), QueryStep::Finish);
    assert!(verify_matches(&vec![true, true], &vec![true], Some(2)).is_ok());
    assert_eq!(
        verify_matches(&vec![false], &Vec::new(), None).unwrap_err(),
        "sealed query returned a non-matching record"
    );
    assert_eq!(
        verify_matches(&vec![true], &vec![false], None).unwrap_err(),
        "sealed query returned records out of order"
    );
    assert_eq!(
        verify_matches(&vec![true, true], &vec![true], Some(1)).unwrap_err(),
        "sealed query exceeded its result limit"
    );
}

#[test]
fn packed_blocks_are_opened_by_manifest() {
    let payload = zstd_compress(b"structural", 1).expect("compresses");
    let checksum = shard_telemetry::checksum::fnv1a64(&payload);
    let mut manifest = b"SLOGPACK2".to_vec();
    manifest.extend_from_slice(&1u64.to_le_bytes());
    for field in [0, 0, 1, 1, 1, 10, 2, 64, payload.len() as u64, checksum] {
        manifest.extend_from_slice(&field.to_le_bytes());
    }
    let entries = read_pack_manifest(&manifest).expect("reads");
    let entry = find_entry(&entries, 0).expect("found");
    assert_eq!((entry.pack_worker, entry.pack_offset), (2, 64));
    assert_eq!(open_payload(&entry, &payload).expect("opens"), b"structural");
    assert_eq!(
        open_payload(&entry, &b"damaged".to_vec()).unwrap_err(),
        "query payload checksum mismatch"
    );
    assert_eq!(
        find_entry(&entries, 1).unwrap_err(),
        "query hit references an unknown manifest block"
    );
    let mut moved = entries.clone();
    moved[0].ordinal = 4;
    assert_eq!(find_entry(&moved, 0).unwrap_err(), "manifest block ordinal mismatch");
    assert_eq!(read_pack_manifest(b"short").unwrap_err(), "failed to fill whole buffer");
    assert_eq!(
        read_pack_manifest(&manifest[..40]).unwrap_err(),
        "failed to fill whole buffer"
    );
    let mut wrong = manifest.clone();
    wrong[0] = b'X';
    assert_eq!(read_pack_manifest(&wrong).unwrap_err(), "manifest has invalid magic");
    let mut large = manifest.clone();
    large[17..25].copy_from_slice(&u64::MAX.to_le_bytes());
    assert_eq!(
        read_pack_manifest(&large).unwrap_err(),
        "out of range integral type conversion attempted"
    );
    large[9..17].copy_from_slice(&2u64.to_le_bytes());
    assert_eq!(
        read_pack_manifest(&large).unwrap_err(),
        "out of range integral type conversion attempted"
    );
    let mut missing = manifest.clone();
    missing[9..17].copy_from_slice(&2u64.to_le_bytes());
    assert_eq!(read_pack_manifest(&missing).unwrap_err(), "failed to fill whole buffer");
}

#[test]
fn results_are_written_as_hex() {
    let mut text = String::new();
    write_hex(&mut text, &[0x0f, 0xa0]);
    assert_eq!(text, "0FA0");
    let record = DecodedStructuralRecord {
        offset: 1,
        timestamp_unix_nanos: 42,
        message: "hi".to_owned(),
        fields: vec![MetadataField::new("docker.stream", "x")],
    };
    assert_eq!(render_result(&record), "42\t78\t6869\n");
}

#[test]
fn query_arguments_are_checked() {
    let settings = parse_pack_query_settings(&arguments(&[
        "packs",
        "--term",
        "error",
        "--field",
        "a=b=c",
        "--oldest",
        "--contains",
        "x",
        "--regex",
        "y",
        "--limit",
        "5",
        "--workers",
        "2",
        "--emit-results",
        "out",
    ]))
    .expect("parses");
    assert_eq!(settings.terms, ["error".to_owned()]);
    assert_eq!(settings.fields, [("a".to_owned(), "b=c".to_owned())]);
    assert!(!settings.newest_first);
    assert_eq!((settings.limit, settings.workers, settings.iterations), (5, 2, 100));
    assert_eq!(settings.emit_results.as_deref(), Some("out"));
    assert_eq!(
        parse_pack_query_settings(&arguments(&["packs", "--field", "ab"])).unwrap_err(),
        "--field requires KEY=VALUE"
    );
    assert_eq!(
        parse_pack_query_settings(&arguments(&["packs", "--limit", "0"])).unwrap_err(),
        "limit, iterations, and workers must be nonzero"
    );
    assert_eq!(
        parse_pack_query_settings(&arguments(&["packs", "--limit", "x"])).unwrap_err(),
        "invalid digit found in string"
    );
    assert_eq!(parse_pair("k=v").unwrap(), ("k".to_owned(), "v".to_owned()));
    assert_eq!(parse_pair("kv").unwrap_err(), "labels must use key=value");
    assert_eq!(parse_pair("=v").unwrap_err(), "label keys must not be empty");
}

#[test]
fn server_plans_are_checked() {
    let plan = ServerPlan {
        max_query_limit: 1,
        flush_timeout_seconds: 1,
        query_timeout_seconds: 1,
        native_auth_timeout_seconds: 1,
        retention_seconds: 0,
        retention_compaction_interval_seconds: 0,
        insecure_development_mode: true,
        has_auth_token_file: false,
        has_object_store: false,
        tenant_partitions: 256,
    };
    assert!(check_server(&plan).is_ok());
    for (refused, words) in [
        (ServerPlan { max_query_limit: 0, ..plan }, "--max-query-limit must be nonzero"),
        (ServerPlan { flush_timeout_seconds: 0, ..plan }, "--flush-timeout-seconds must be nonzero"),
        (ServerPlan { query_timeout_seconds: 0, ..plan }, "--query-timeout-seconds must be nonzero"),
        (
            ServerPlan { native_auth_timeout_seconds: 0, ..plan },
            "--native-auth-timeout-seconds must be nonzero",
        ),
        (
            ServerPlan { retention_seconds: 1, ..plan },
            "--retention-compaction-interval-seconds must be nonzero when retention is enabled",
        ),
        (
            ServerPlan { has_auth_token_file: true, ..plan },
            "--insecure-development-mode conflicts with --auth-token-file",
        ),
        (
            ServerPlan { insecure_development_mode: false, ..plan },
            "--auth-token-file is required unless --insecure-development-mode is explicit",
        ),
        (
            ServerPlan { insecure_development_mode: false, has_auth_token_file: true, ..plan },
            "--object-store-directory is required in production mode for durable compressed checkpoints",
        ),
        (ServerPlan { tenant_partitions: 65_536, ..plan }, "--tenant-partitions must be in 1..=65535"),
    ] {
        assert_eq!(check_server(&refused).unwrap_err(), words);
    }
    assert_eq!(check_secret("x", "p", true, 3, " a\n").unwrap(), "a");
    assert_eq!(check_secret("x", "p", false, 3, "a").unwrap_err(), "x token path p is not a file");
    assert_eq!(
        check_secret("x", "p", true, 4_097, "a").unwrap_err(),
        "x token file p exceeds 4096 bytes"
    );
    assert_eq!(check_secret("x", "p", true, 3, " \n").unwrap_err(), "x token file p is empty");
}

#[test]
fn count_flags_are_checked() {
    assert_eq!(parse_query_settings(&arguments(&[])).unwrap().records, 100_000);
    assert_eq!(
        parse_query_settings(&arguments(&["--records", "7", "--iterations", "2"])).unwrap().records,
        7
    );
    assert_eq!(
        parse_query_settings(&arguments(&["--records"])).unwrap_err(),
        "--records requires a value"
    );
    assert_eq!(
        parse_query_settings(&arguments(&["--x"])).unwrap_err(),
        "unknown argument: --x"
    );
    assert_eq!(
        parse_query_settings(&arguments(&["--records", "0"])).unwrap_err(),
        "records and iterations must be nonzero"
    );
    assert_eq!(
        parse_locality_settings(&arguments(&["--seal-records", "0"])).unwrap_err(),
        "benchmark iteration counts must be nonzero"
    );
    assert_eq!(
        parse_offload_settings(&arguments(&["--partitions", "x"])).unwrap_err(),
        "invalid --partitions: invalid digit found in string"
    );
    assert_eq!(
        parse_offload_settings(&arguments(&["--partitions", "257"])).unwrap_err(),
        "--partitions must be in 1..=256"
    );
    let offload = parse_offload_settings(&arguments(&[])).unwrap();
    assert!(check_offload(&offload, 256, 256) && !check_offload(&offload, 256, 255));
    assert_eq!(
        parse_tier_cache_settings(&arguments(&["--ranges", "x"])).unwrap_err(),
        "invalid value for --ranges"
    );
    assert_eq!(
        parse_tier_cache_settings(&arguments(&["--chunk-bytes", "1"])).unwrap_err(),
        "selected ranges must fit one cache chunk and object"
    );
    assert_eq!(
        parse_tier_cache_settings(&arguments(&["--range-bytes", "18446744073709551615"]))
            .unwrap_err(),
        "selected byte count overflow"
    );
    let tier = parse_tier_cache_settings(&arguments(&["--ranges", "2", "--range-bytes", "10"]))
        .expect("parses");
    assert_eq!(select_ranges(&tier), [(0, 10), (10, 20)]);
}

#[test]
fn workloads_know_their_answers() {
    let records = 12_345;
    let expected = expected_matches(records);
    let count = |keep: fn(usize) -> bool| (0..records).filter(|index| keep(*index)).count();
    assert_eq!(expected.rare, count(|index| index % 1_000 == 0));
    assert_eq!(expected.service_rare, count(|index| index % 1_000 == 0 && index % 16 == 0));
    assert_eq!(expected.errors, count(|index| index % 4 == 0));
    assert_eq!(expected.elevated_status, count(|index| index % 10 == 0));
    assert_eq!(expected.selected_services, count(|index| index % 16 < 2));
    assert_eq!((expected.window_start, expected.window_end), (6_172, 6_272));
    assert_eq!(count_matches(17, 16, 2), 3);
    assert_eq!(query_message(1_000), "common log event request_id=1000 medium rare");
    assert_eq!(query_message(7), "common log event request_id=7");
    assert_eq!(loki_line(0), "needle request_id=0");
    assert_eq!(loki_line(1), "noise request_id=1");
    assert_eq!(
        decode_message(61),
        "2026.07.29 02:01:01.000061 [ 404 ] {} <Error> Application: Code: 76. DB::ErrnoException: Cannot open file /var/lib/clickhouse/store/0000003d/data.bin: Permission denied"
    );
}
