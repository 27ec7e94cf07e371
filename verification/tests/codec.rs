use shard_telemetry::codec::{
    compress, decompress, encode_block, parse_codecs, BlockFault, Codec,
};
use shard_telemetry::codec_bench::{
    format_report, parse_settings, CodecResult, CodecSettings, CodecTotals,
};
use shard_telemetry::sizes::{parse_byte_count, parse_size};
use shard_telemetry::zstd_frames::{zstd_compress, zstd_decompress};

fn arguments(words: &[&str]) -> Vec<String> {
    words.iter().map(|word| (*word).to_owned()).collect()
}

#[test]
fn every_codec_round_trips_repeated_log_content() {
    let input = b"{\"log\":\"ERROR retry=42 request_id=abc\"}\n".repeat(1024);
    for codec in Codec::all() {
        let compressed = compress(codec, &input).expect("compresses");
        assert_eq!(
            decompress(codec, &compressed, input.len()).expect("decompresses"),
            input,
            "{}",
            codec.name()
        );
    }
}

#[test]
fn every_codec_but_copy_makes_repeated_content_smaller() {
    let input = b"{\"log\":\"ERROR retry=42 request_id=abc\"}\n".repeat(1024);
    for codec in Codec::all() {
        let block = encode_block(codec, &input, true).expect("round trips");
        if codec == Codec::Copy {
            assert_eq!(block, input);
        } else {
            assert!(block.len() < input.len() / 4, "{}", codec.name());
        }
    }
}

#[test]
fn every_codec_takes_an_empty_block_back() {
    for codec in Codec::all() {
        let block = Vec::new();
        match encode_block(codec, &block, true) {
            Ok(frame) => assert_eq!(
                decompress(codec, &frame, 0).expect("decompresses"),
                block,
                "{}",
                codec.name()
            ),
            Err(fault) => panic!("{}: {}", codec.name(), fault.message(codec)),
        }
    }
}

#[test]
fn frames_that_do_not_fit_are_refused() {
    let input = b"0123456789".repeat(100);
    for codec in [Codec::Libdeflate, Codec::ZlibRs, Codec::Zstd1] {
        let frame = compress(codec, &input).expect("compresses");
        assert!(decompress(codec, &frame, 10).is_err(), "{}", codec.name());
    }
    let frame = zstd_compress(&input, 3).expect("compresses");
    assert_eq!(zstd_decompress(&frame, input.len()).expect("decompresses"), input);
    assert!(zstd_decompress(b"not a frame", 10).is_err());
}

#[test]
fn damaged_frames_are_refused() {
    for codec in [
        Codec::Lz4Flex,
        Codec::Lz4Native,
        Codec::Snappy,
        Codec::S2,
        Codec::MinLzBalanced,
        Codec::Flate2,
        Codec::Bzip2,
        Codec::Xz2,
        Codec::LzmaRust2,
        Codec::LzfseRust,
        Codec::ZripFast,
    ] {
        let data = b"a line of text, another line of text and no line of text".to_vec();
        let frame = compress(codec, &data).expect("compresses");
        let half = &frame[..frame.len() / 2];
        assert!(decompress(codec, half, data.len()).is_err(), "{}", codec.name());
    }
}

#[test]
fn minlz_blocks_are_bounded() {
    let input = vec![0u8; 8_388_609];
    assert_eq!(
        encode_block(Codec::MinLzBalanced, &input, false),
        Err(BlockFault::Compression("s2: decoded block is too large".to_owned()))
    );
    assert_eq!(
        BlockFault::RoundTrip.message(Codec::Zstd1),
        "zstd-1 failed first-block round-trip verification"
    );
    assert_eq!(BlockFault::Decompression("cut".to_owned()).message(Codec::Xz2), "cut");
}

#[test]
fn parses_binary_and_iec_byte_limits() {
    assert_eq!(parse_size("10").expect("bytes"), 10);
    assert_eq!(parse_size("2KiB").expect("kib"), 2048);
    assert_eq!(parse_size("3MiB").expect("mib"), 3 * 1024 * 1024);
}

#[test]
fn sizes_saturate_and_complain() {
    assert_eq!(parse_size(" 1GIB ").expect("gib"), 1_073_741_824);
    assert_eq!(parse_size("18446744073709551615KiB").expect("saturates"), u64::MAX);
    assert_eq!(parse_size("x").unwrap_err(), "invalid digit found in string");
    assert_eq!(parse_size("").unwrap_err(), "cannot parse integer from empty string");
    assert_eq!(
        parse_size("18446744073709551616").unwrap_err(),
        "number too large to fit in target type"
    );
}

#[test]
fn byte_count_parser_uses_iec_units() {
    assert_eq!(parse_byte_count("2GiB").expect("size parses"), 2 * 1024 * 1024 * 1024);
}

#[test]
fn byte_counts_know_every_unit() {
    assert_eq!(parse_byte_count("8MiB").unwrap(), 8 * 1024 * 1024);
    assert_eq!(parse_byte_count("123").unwrap(), 123);
    assert!(parse_byte_count("1parsec").is_err());
}

#[test]
fn accepts_a_nonduplicated_codec_subset() {
    let codecs = parse_codecs("lz4_flex,zstd-1,zstd-9").expect("parses");
    assert_eq!(
        codecs.iter().map(|codec| codec.name()).collect::<Vec<_>>(),
        ["lz4_flex", "zstd-1", "zstd-9"]
    );
    assert!(parse_codecs("lz4_flex,lz4_flex").is_err());
}

#[test]
fn expands_named_codec_profiles() {
    assert_eq!(parse_codecs("screen").expect("screen"), Codec::screen());
    assert_eq!(parse_codecs("archive").expect("archive"), Codec::archive());
    assert_eq!(parse_codecs("all").expect("all"), Codec::all());
    assert_eq!(Codec::screen().len(), 19);
    assert_eq!(Codec::archive().len(), 8);
    assert_eq!(Codec::all().len(), 24);
}

#[test]
fn codec_complaints_quote_the_name() {
    assert_eq!(parse_codecs("nope\t").unwrap_err(), "unknown codec \"nope\\t\"");
    assert_eq!(
        parse_codecs("copy, copy").unwrap_err(),
        "codec \" copy\" appears more than once"
    );
    assert_eq!(Codec::parse("zopfli-5"), Some(Codec::Zopfli));
    assert_eq!(Codec::parse("zopfli"), None);
    assert_eq!(Codec::profile("none"), None);
}

#[test]
fn codec_arguments_are_checked() {
    let settings = parse_settings(&arguments(&[
        "in.log",
        "--limit-bytes",
        "2KiB",
        "--block-bytes",
        "1KiB",
        "--codecs",
        "copy,snap",
        "--report",
        "out.txt",
    ]))
    .expect("parses");
    assert_eq!(
        settings,
        CodecSettings {
            input: "in.log".to_owned(),
            limit_bytes: 2048,
            block_bytes: 1024,
            codecs: vec![Codec::Copy, Codec::Snappy],
            report_path: Some("out.txt".to_owned()),
        }
    );
    assert!(parse_settings(&arguments(&[])).unwrap_err().starts_with("usage: "));
    assert_eq!(
        parse_settings(&arguments(&["in", "--limit-bytes"])).unwrap_err(),
        "--limit-bytes requires a value"
    );
    assert_eq!(
        parse_settings(&arguments(&["in", "--bad"])).unwrap_err(),
        "unknown argument --bad"
    );
    assert_eq!(
        parse_settings(&arguments(&["in", "--block-bytes", "0"])).unwrap_err(),
        "byte limits must be nonzero"
    );
    assert_eq!(
        parse_settings(&arguments(&["in", "--codecs", "minlz_balanced", "--block-bytes", "9MiB"]))
            .unwrap_err(),
        "minlz_balanced supports at most 8388608 bytes per block"
    );
}

#[test]
fn codec_totals_follow_the_limit() {
    let mut totals = CodecTotals::new();
    assert_eq!(totals.next_target(10, 4), Some(4));
    totals.add_block(4, 2);
    totals.add_block(4, 3);
    assert_eq!(totals.next_target(10, 4), Some(2));
    totals.add_block(2, 1);
    assert_eq!(totals.next_target(10, 4), None);
    let totals = totals.finish().expect("read something");
    assert_eq!((totals.source_bytes, totals.stored_bytes, totals.blocks), (10, 6, 3));
    assert_eq!(CodecTotals::new().finish().unwrap_err(), "input contained no bytes");
}

#[test]
fn codec_report_lists_every_result() {
    let settings = CodecSettings {
        input: "in.log".to_owned(),
        limit_bytes: 10,
        block_bytes: 4,
        codecs: vec![Codec::Copy, Codec::Zstd1],
        report_path: None,
    };
    let results = vec![CodecResult {
        codec: Codec::Copy,
        totals: CodecTotals { source_bytes: 10, stored_bytes: 10, blocks: 3 },
        ratio: "1.0000".to_owned(),
        retained_percent: "100.0000".to_owned(),
        compression_seconds: "0.000001".to_owned(),
        mib_per_second: "9.54".to_owned(),
    }];
    let report = format_report(&settings, &results);
    assert!(report.starts_with(
        "shard-telemetry codec compression benchmark\ninput: in.log\nblock target: 4\ncodecs: copy,zstd-1\ncodec,source_bytes"
    ));
    assert!(report.contains("\ncopy,10,10,1.0000,100.0000,0.000001,9.54,3\nnote: every codec"));
}
