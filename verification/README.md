# shard_telemetry

The logic of a sharded telemetry store, written in Verus: identities and
correlation of logs, spans and metrics, durable envelopes and ingest packs,
dictionary catalogs, analytical scans with their Arrow, RowBinary and JSON
encodings, embedded storage budgets, metric export, and the tools that measure
all of it.

- `src/` is the verified library. Every verified function carries a contract,
  and laws that span several functions stand there as public proof functions.
  Calls into other crates go through small wrappers whose doc comments say what
  is believed of the outside function.
- `tests/` runs the library, with the real compressors and encoders linked.
- `app/` holds what needs files, sockets, threads or floating point: the codec
  and layout benchmarks, the log merger, the Loki load generator, the stored
  deletion catalog, the locks of an embedded node, the JSON texts of analytical
  rows and the HTTP side of analytical scans.

## Modules

| Modules | Content |
| --- | --- |
| `model`, `attributes`, `records`, `digest`, `identity_cache` | Identifiers, typed attributes, durable records and their identities |
| `correlation`, `correlation_query`, `correlation_history`, `correlation_filter` | The correlation index, its queries, what they give back of everything indexed, and the block filters |
| `envelope`, `ingest`, `ingest_pack`, `zstd_frames`, `wire`, `checksum` | Durable envelopes and compressed ingest packs |
| `dictionary`, `block`, `deletion` | Compression dictionaries, sealed blocks, logical deletions |
| `analytics_*` | Columns, requests, rows, scans and wire formats |
| `embedded`, `fast_telemetry`, `native_query`, `service` | Embedded storage budgets and lifecycle, metric export, queries of the store, winding down |
| `docker_*`, `locality`, `structural_*`, `block_results` | Docker logs as structural blocks, packs and manifests |
| `codec`, `codec_formats`, `codec_bench`, `template*`, `compression_bench` | Block codecs and log layouts |
| `load*`, `interleave`, `pack_query`, `workloads`, `corpus*`, `latency` | Load generation, merging, packed queries, benchmark data |
| `arguments`, `count_flags`, `*_settings`, `sizes`, `bench_runs` | Command lines of the tools and checks of their runs |
| `text`, `byte_map`, `string_map` | Text and ordered maps |
