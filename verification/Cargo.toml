[package]
name = "shard_telemetry"
version = "0.1.0"
edition = "2021"
publish = false

[dependencies]
blake3 = "1"
brotli = "*"
bzip2 = "*"
flate2 = "1"
foldhash = "*"
form_urlencoded = "1"
libdeflater = "*"
lz4 = "1"
lz4_flex = "*"
lzfse = "*"
lzfse_rust = "*"
lzma-rust2 = "*"
memchr = "2"
minlz = "*"
snap = "1"
xz2 = "0.1"
zlib-rs = "*"
zopfli = "*"
zrip = "*"
zstd = "0.13"
arrow-array = "*"
arrow-ipc = "*"
arrow-schema = "*"
axum = "*"
bytes = "1"
clap = { version = "4", features = ["derive"] }
serde = { version = "1", features = ["derive"] }
serde_json = "1"
tokio = { version = "1", features = ["rt-multi-thread", "macros", "net", "sync", "signal", "time"] }
tokio-stream = "0.1"
