//! Verified core of a telemetry store: wire formats, catalogs, correlation
//! navigation, analytical projection and the planning logic of its tools.

pub mod analytics_arrow;
pub mod analytics_columns;
pub mod analytics_direct;
pub mod analytics_metrics;
pub mod analytics_projection;
pub mod analytics_projection_laws;
pub mod analytics_request;
pub mod analytics_request_laws;
pub mod analytics_row;
pub mod analytics_rowbinary;
pub mod analytics_rowbinary_laws;
pub mod analytics_scan;
pub mod analytics_scan_laws;
pub mod analytics_spans;
pub mod arguments;
pub mod attributes;
pub mod bench_runs;
pub mod bench_settings;
pub mod block;
pub mod block_results;
pub mod byte_map;
pub mod checksum;
pub mod codec;
pub mod codec_bench;
pub mod codec_formats;
pub mod codec_laws;
pub mod compression_bench;
pub mod corpus;
pub mod corpus_laws;
pub mod corpus_rows;
pub mod corpus_rows_laws;
pub mod corpus_store;
pub mod corpus_store_laws;
pub mod correlation;
pub mod correlation_filter;
pub mod correlation_filter_laws;
pub mod correlation_history;
pub mod correlation_laws;
pub mod correlation_query;
pub mod count_flags;
pub mod deletion;
pub mod deletion_laws;
pub mod dictionary;
pub mod dictionary_laws;
pub mod digest;
pub mod docker_blocks;
pub mod docker_json;
pub mod docker_lines_laws;
pub mod docker_json_laws;
pub mod docker_time;
pub mod docker_time_laws;
pub mod embedded;
pub mod embedded_laws;
pub mod envelope;
pub mod error;
pub mod error_laws;
pub mod fast_telemetry;
pub mod fast_telemetry_laws;
pub mod identity_cache;
pub mod identity_laws;
pub mod ingest;
pub mod ingest_pack;
pub mod ingest_pack_laws;
pub mod interleave;
pub mod latency;
pub mod latency_laws;
pub mod load;
pub mod load_laws;
pub mod load_requests;
pub mod locality;
pub mod message_hash_laws;
pub mod model;
pub mod native_query;
pub mod pack_query;
pub mod pack_query_laws;
pub mod query_settings;
pub mod records;
pub mod report_laws;
pub mod service;
pub mod settings_laws;
mod shared;
pub mod signal_settings;
pub mod sizes;
pub mod sizes_laws;
pub mod stored_block_laws;
pub mod string_map;
pub mod structural_bench;
pub mod structural_report;
pub mod structural_run;
pub mod structural_settings;
pub mod tally_laws;
pub mod template;
pub mod template_bench;
pub mod template_encoder;
pub mod template_encoder_laws;
pub mod template_laws;
pub mod text;
pub mod text_laws;
pub mod wire;
pub mod wire_layout_laws;
pub mod workloads;
pub mod zstd_frames;
