//! Compressed blocks of the general-purpose engines.

use std::io::{Read, Write};

use vstd::prelude::*;

use crate::text::decimal;

verus! {

/// The frames among the outcomes of a compressor.
pub open spec fn frames_of(outcomes: Set<Result<Seq<u8>, Seq<char>>>) -> Set<Seq<u8>> {
    Set::new(|frame: Seq<u8>| outcomes.contains(Ok::<Seq<u8>, Seq<char>>(frame)))
}

/// Whether a compressor may refuse its data with this text.
pub open spec fn refused_with(outcomes: Set<Result<Seq<u8>, Seq<char>>>, text: Seq<char>) -> bool {
    outcomes.contains(Err::<Seq<u8>, Seq<char>>(text))
}

/// What `lz4_flex::block::decompress_size_prepended` makes of a block, where it
/// accepts it.
pub uninterp spec fn lz4_flex_content(frame: Seq<u8>) -> Option<Seq<u8>>;

/// The blocks that `lz4_flex::block::compress_prepend_size` may return for data.
pub uninterp spec fn lz4_flex_blocks(data: Seq<u8>) -> Set<Seq<u8>>;

/// Calls `lz4_flex::block::compress_prepend_size`. The claim is that the block
/// holds exactly `data`, as long as its length fits the four-byte prefix. Which
/// of them comes back stays open.
#[verifier::external_body]
pub(crate) fn lz4_flex_compress(data: &[u8]) -> (frame: Vec<u8>)
    requires
        2 * data@.len() + 0x2_0000 <= isize::MAX,
    ensures
        lz4_flex_blocks(data@).contains(frame@),
        data@.len() <= u32::MAX ==> lz4_flex_content(frame@) == Some(data@),
{
    lz4_flex::block::compress_prepend_size(data)
}

/// Calls `lz4_flex::block::decompress_size_prepended`. The claim is that the
/// outcome depends on the block alone.
#[verifier::external_body]
pub(crate) fn lz4_flex_decompress(frame: &[u8]) -> (data: Result<Vec<u8>, String>)
    ensures
        match data {
            Ok(data) => lz4_flex_content(frame@) == Some(data@),
            Err(_) => lz4_flex_content(frame@) is None,
        },
{
    lz4_flex::block::decompress_size_prepended(frame).map_err(|error| error.to_string())
}

/// What `lz4::block::decompress` makes of a block that starts with its size, where
/// it accepts it.
pub uninterp spec fn lz4_content(frame: Seq<u8>) -> Option<Seq<u8>>;

/// Longest data of one LZ4 block.
pub const MAX_LZ4_BYTES: usize = 0x7e00_0000;

/// What `lz4::block::compress` may make of data, the size in front, in the
/// default mode or at a level of the high compression mode: a block, or the text
/// of an error.
pub uninterp spec fn lz4_outcomes(data: Seq<u8>, level: Option<i32>) -> Set<Result<Seq<u8>, Seq<char>>>;

/// Calls `lz4::block::compress` with the size in front: the default mode, or
/// the high compression mode at a level. The claim is that a block or an error it
/// returns is an outcome for this data and mode, that a block holds exactly `data`
/// and has a length that is an `i32`, and that it refuses data that is longer than
/// a block and, within that length, only data for the high compression mode, which
/// allocates. Which outcome comes back stays open.
#[verifier::external_body]
pub(crate) fn lz4_compress(data: &[u8], level: Option<i32>) -> (frame: Result<Vec<u8>, String>)
    requires
        2 * data@.len() + 0x2_0000 <= isize::MAX,
    ensures
        match frame {
            Ok(frame) => lz4_outcomes(data@, level).contains(
                Ok::<Seq<u8>, Seq<char>>(frame@),
            ) && lz4_content(frame@) == Some(data@) && frame@.len() <= i32::MAX && data@.len()
                <= MAX_LZ4_BYTES,
            Err(text) => lz4_outcomes(data@, level).contains(
                Err::<Seq<u8>, Seq<char>>(text@),
            ) && if data@.len() > MAX_LZ4_BYTES {
                text@ == "Compression input too long."@
            } else {
                level is Some && text@ == "Compression failed"@
            },
        },
{
    lz4::block::compress(data, level.map(lz4::block::CompressionMode::HIGHCOMPRESSION), true)
        .map_err(|error| error.to_string())
}

/// Calls `lz4::block::decompress` on a block that starts with its size. The
/// claim is that the outcome depends on the block alone.
#[verifier::external_body]
pub(crate) fn lz4_decompress(frame: &[u8]) -> (data: Result<Vec<u8>, String>)
    requires
        frame@.len() <= i32::MAX,
    ensures
        match data {
            Ok(data) => lz4_content(frame@) == Some(data@),
            Err(_) => lz4_content(frame@) is None,
        },
{
    lz4::block::decompress(frame, None).map_err(|error| error.to_string())
}

/// What `snap::raw::Decoder::decompress_vec` makes of a block, where it accepts
/// it.
pub uninterp spec fn snappy_content(frame: Seq<u8>) -> Option<Seq<u8>>;

/// The blocks that `snap::raw::Encoder::compress_vec` may return for data.
pub uninterp spec fn snappy_blocks(data: Seq<u8>) -> Set<Seq<u8>>;

/// Whether data of some length fits a Snappy block however badly it compresses.
pub open spec fn snappy_fits(length: nat) -> bool {
    32 + length + length / 6 <= u32::MAX
}

/// What is said of data that does not fit a Snappy block.
pub open spec fn snappy_complaint(length: nat) -> Seq<char> {
    "snappy: input buffer (size = "@ + decimal(length) + ") is larger than allowed (size = "@
        + decimal(u32::MAX as nat) + ")"@
}

/// Calls `snap::raw::Encoder::compress_vec`. The claim is that a block it
/// returns holds exactly `data`, and that it refuses exactly the data that does
/// not fit a block. Which block it returns stays open.
#[verifier::external_body]
pub(crate) fn snappy_compress(data: &[u8]) -> (frame: Result<Vec<u8>, String>)
    requires
        2 * data@.len() + 0x2_0000 <= isize::MAX,
    ensures
        match frame {
            Ok(frame) => snappy_blocks(data@).contains(frame@) && snappy_content(frame@) == Some(
                data@,
            ) && snappy_fits(data@.len()),
            Err(text) => !snappy_fits(data@.len()) && text@ == snappy_complaint(data@.len()),
        },
{
    snap::raw::Encoder::new().compress_vec(data).map_err(|error| error.to_string())
}

/// Calls `snap::raw::Decoder::decompress_vec`. The claim is that the outcome
/// depends on the block alone.
#[verifier::external_body]
pub(crate) fn snappy_decompress(frame: &[u8]) -> (data: Result<Vec<u8>, String>)
    ensures
        match data {
            Ok(data) => snappy_content(frame@) == Some(data@),
            Err(_) => snappy_content(frame@) is None,
        },
{
    snap::raw::Decoder::new().decompress_vec(frame).map_err(|error| error.to_string())
}

/// Longest data that an S2 block gives back.
pub const MAX_S2_BYTES: usize = 268_435_456;

/// What `minlz::s2::decode` makes of a block, where it accepts it.
pub uninterp spec fn s2_content(frame: Seq<u8>) -> Option<Seq<u8>>;

/// The blocks that `minlz::s2::encode` may return for data.
pub uninterp spec fn s2_blocks(data: Seq<u8>) -> Set<Seq<u8>>;

/// Calls `minlz::s2::encode`, which panics on data of four gibibytes or more.
/// The claim is that the block holds exactly `data`, as long as the decoder
/// accepts blocks of that size. Which of them comes back stays open.
#[verifier::external_body]
pub(crate) fn s2_compress(data: &[u8]) -> (frame: Vec<u8>)
    requires
        2 * data@.len() + 0x2_0000 <= isize::MAX,
        data@.len() <= 0x7fff_ffff,
    ensures
        s2_blocks(data@).contains(frame@),
        data@.len() <= MAX_S2_BYTES ==> s2_content(frame@) == Some(data@),
{
    minlz::s2::encode(data)
}

/// The blocks that `minlz::s2::encode_better` may return for data.
pub uninterp spec fn s2_better_blocks(data: Seq<u8>) -> Set<Seq<u8>>;

/// Calls `minlz::s2::encode_better`, which panics on data of four gibibytes or more.
/// The claim is that the block holds exactly `data`, as long as the decoder
/// accepts blocks of that size. Which of them comes back stays open.
#[verifier::external_body]
pub(crate) fn s2_better_compress(data: &[u8]) -> (frame: Vec<u8>)
    requires
        2 * data@.len() + 0x2_0000 <= isize::MAX,
        data@.len() <= 0x7fff_ffff,
    ensures
        s2_better_blocks(data@).contains(frame@),
        data@.len() <= MAX_S2_BYTES ==> s2_content(frame@) == Some(data@),
{
    minlz::s2::encode_better(data)
}

/// The blocks that `minlz::s2::encode_best` may return for data.
pub uninterp spec fn s2_best_blocks(data: Seq<u8>) -> Set<Seq<u8>>;

/// Calls `minlz::s2::encode_best`, which panics on data of four gibibytes or more.
/// The claim is that the block holds exactly `data`, as long as the decoder
/// accepts blocks of that size. Which of them comes back stays open.
#[verifier::external_body]
pub(crate) fn s2_best_compress(data: &[u8]) -> (frame: Vec<u8>)
    requires
        2 * data@.len() + 0x2_0000 <= isize::MAX,
        data@.len() <= 0x7fff_ffff,
    ensures
        s2_best_blocks(data@).contains(frame@),
        data@.len() <= MAX_S2_BYTES ==> s2_content(frame@) == Some(data@),
{
    minlz::s2::encode_best(data)
}

/// Calls `minlz::s2::decode`. The claim is that the outcome depends on the block
/// alone.
#[verifier::external_body]
pub(crate) fn s2_decompress(frame: &[u8]) -> (data: Result<Vec<u8>, String>)
    ensures
        match data {
            Ok(data) => s2_content(frame@) == Some(data@),
            Err(_) => s2_content(frame@) is None,
        },
{
    minlz::s2::decode(frame).map_err(|error| error.to_string())
}

/// Longest data of one MinLZ block.
pub const MAX_MINLZ_BYTES: usize = 8_388_608;

/// What `minlz::minlz::decompress` makes of a block, where it accepts it.
pub uninterp spec fn minlz_content(frame: Seq<u8>) -> Option<Seq<u8>>;

/// The blocks that `minlz::minlz::compress_level` may return for data at the balanced level.
pub uninterp spec fn minlz_balanced_blocks(data: Seq<u8>) -> Set<Seq<u8>>;

/// Calls `minlz::minlz::compress_level` at the balanced level. The claim is that
/// a block it returns holds exactly `data`, and that it refuses exactly the data
/// that is longer than a block. Which block it returns stays open.
#[verifier::external_body]
pub(crate) fn minlz_balanced_compress(data: &[u8]) -> (frame: Result<Vec<u8>, String>)
    requires
        2 * data@.len() + 0x2_0000 <= isize::MAX,
    ensures
        match frame {
            Ok(frame) => minlz_balanced_blocks(data@).contains(frame@) && data@.len() <= MAX_MINLZ_BYTES && minlz_content(frame@) == Some(data@),
            Err(text) => data@.len() > MAX_MINLZ_BYTES && text@
                == "s2: decoded block is too large"@,
        },
{
    minlz::minlz::compress_level(data, minlz::minlz::Level::Balanced).map_err(
        |error| error.to_string(),
    )
}

/// Calls `minlz::minlz::decompress`. The claim is that the outcome depends on
/// the block alone.
#[verifier::external_body]
pub(crate) fn minlz_decompress(frame: &[u8]) -> (data: Result<Vec<u8>, String>)
    ensures
        match data {
            Ok(data) => minlz_content(frame@) == Some(data@),
            Err(_) => minlz_content(frame@) is None,
        },
{
    minlz::minlz::decompress(frame).map_err(|error| error.to_string())
}

/// What `flate2::read::ZlibDecoder` reads out of a stream, where it reads to the
/// end.
pub uninterp spec fn flate2_content(frame: Seq<u8>) -> Option<Seq<u8>>;

/// What `flate2::write::ZlibEncoder` may make of data at a level: a stream, or the
/// text of an error.
pub uninterp spec fn flate2_outcomes(data: Seq<u8>, level: u32) -> Set<Result<Seq<u8>, Seq<char>>>;

/// Writes `data` to a `flate2::write::ZlibEncoder` and finishes it. The claim is
/// that a stream or an error it returns is an outcome for this data and level, and
/// that a stream holds exactly `data`. Which outcome comes back stays open.
#[verifier::external_body]
pub(crate) fn flate2_compress(data: &[u8], level: u32) -> (frame: Result<Vec<u8>, String>)
    requires
        2 * data@.len() + 0x2_0000 <= isize::MAX,
        level <= 9,
    ensures
        match frame {
            Ok(frame) => flate2_outcomes(data@, level).contains(
                Ok::<Seq<u8>, Seq<char>>(frame@),
            ) && flate2_content(frame@) == Some(data@),
            Err(text) => flate2_outcomes(data@, level).contains(
                Err::<Seq<u8>, Seq<char>>(text@),
            ),
        },
{
    let mut encoder = flate2::write::ZlibEncoder::new(Vec::new(), flate2::Compression::new(level));
    encoder.write_all(data).map_err(|error| error.to_string())?;
    encoder.finish().map_err(|error| error.to_string())
}

/// Reads a `flate2::read::ZlibDecoder` to its end. The claim is that the outcome
/// depends on the stream alone; `capacity` is only what is reserved.
#[verifier::external_body]
pub(crate) fn flate2_decompress(frame: &[u8], capacity: usize) -> (data: Result<Vec<u8>, String>)
    requires
        capacity <= isize::MAX,
    ensures
        match data {
            Ok(data) => flate2_content(frame@) == Some(data@),
            Err(_) => flate2_content(frame@) is None,
        },
{
    let mut decoder = flate2::read::ZlibDecoder::new(frame);
    let mut output = Vec::with_capacity(capacity);
    decoder.read_to_end(&mut output).map_err(|error| error.to_string())?;
    Ok(output)
}

/// The streams that `zopfli::compress` may write for data in the zlib format after some
/// iterations.
pub uninterp spec fn zopfli_streams(data: Seq<u8>, iterations: u64) -> Set<Seq<u8>>;

/// Calls `zopfli::compress` for the zlib format. The claim is that it succeeds,
/// since a slice can be read and a vector written without an error, and that the
/// stream holds exactly `data` as the `flate2` decoder reads it. Which stream that
/// is stays open.
#[verifier::external_body]
pub(crate) fn zopfli_compress(data: &[u8], iterations: u64) -> (frame: Result<Vec<u8>, String>)
    requires
        2 * data@.len() + 0x2_0000 <= isize::MAX,
        iterations > 0,
    ensures
        match frame {
            Ok(frame) => zopfli_streams(data@, iterations).contains(frame@) && flate2_content(
                frame@,
            ) == Some(data@),
            Err(_) => false,
        },
{
    let iteration_count = std::num::NonZeroU64::new(iterations).ok_or("no iterations")?;
    let options = zopfli::Options { iteration_count, ..Default::default() };
    let mut output = Vec::new();
    zopfli::compress(options, zopfli::Format::Zlib, data, &mut output).map_err(
        |error| error.to_string(),
    )?;
    Ok(output)
}

/// What `libdeflater::Decompressor::zlib_decompress` makes of a stream with room
/// enough, where it accepts it.
pub uninterp spec fn libdeflate_content(frame: Seq<u8>) -> Option<Seq<u8>>;

/// The streams that `libdeflater::Compressor::zlib_compress` may write for data at a level.
pub uninterp spec fn libdeflate_streams(data: Seq<u8>, level: i32) -> Set<Seq<u8>>;

/// Calls `libdeflater::Compressor::zlib_compress` with the room that
/// `zlib_compress_bound` asks for. The claim is that it succeeds, since that room
/// is a hard upper bound, and that the stream holds exactly `data`. Which stream
/// that is stays open.
#[verifier::external_body]
pub(crate) fn libdeflate_compress(data: &[u8], level: i32) -> (frame: Result<Vec<u8>, String>)
    requires
        2 * data@.len() + 0x2_0000 <= isize::MAX,
        1 <= level <= 12,
    ensures
        match frame {
            Ok(frame) => libdeflate_streams(data@, level).contains(frame@) && libdeflate_content(
                frame@,
            ) == Some(data@),
            Err(_) => false,
        },
{
    let level = libdeflater::CompressionLvl::new(level).map_err(|error| format!("{error:?}"))?;
    let mut encoder = libdeflater::Compressor::new(level);
    let mut output = vec![0; encoder.zlib_compress_bound(data.len())];
    let length = encoder.zlib_compress(data, &mut output).map_err(|error| error.to_string())?;
    output.truncate(length);
    Ok(output)
}

/// Calls `libdeflater::Decompressor::zlib_decompress` with room for `capacity`
/// bytes. The claim is that bytes it returns are what the stream holds, and that
/// it fails only where the stream holds nothing or more than fits.
#[verifier::external_body]
pub(crate) fn libdeflate_decompress(frame: &[u8], capacity: usize) -> (data: Result<Vec<u8>, String>)
    requires
        capacity <= isize::MAX,
    ensures
        match data {
            Ok(data) => libdeflate_content(frame@) == Some(data@),
            Err(_) => match libdeflate_content(frame@) {
                Some(content) => content.len() > capacity,
                None => true,
            },
        },
{
    let mut decoder = libdeflater::Decompressor::new();
    let mut output = vec![0; capacity];
    let length = decoder.zlib_decompress(frame, &mut output).map_err(|error| error.to_string())?;
    output.truncate(length);
    Ok(output)
}

/// What `zlib_rs::decompress_slice` makes of a stream with room enough, where it
/// accepts it.
pub uninterp spec fn zlib_rs_content(frame: Seq<u8>) -> Option<Seq<u8>>;

/// What `zlib_rs::compress_slice` may make of data at a level: a stream, or the
/// text of an error.
pub uninterp spec fn zlib_rs_outcomes(data: Seq<u8>, level: i32) -> Set<Result<Seq<u8>, Seq<char>>>;

/// Calls `zlib_rs::compress_slice` with the room that `compress_bound` asks for.
/// The claim is that a stream or an error it returns is an outcome for this data
/// and level, and that a stream holds exactly `data`. Which outcome comes back
/// stays open: the encoder may run out of memory.
#[verifier::external_body]
pub(crate) fn zlib_rs_compress(data: &[u8], level: i32) -> (frame: Result<Vec<u8>, String>)
    requires
        2 * data@.len() + 0x2_0000 <= isize::MAX,
        1 <= level <= 9,
    ensures
        match frame {
            Ok(frame) => zlib_rs_outcomes(data@, level).contains(
                Ok::<Seq<u8>, Seq<char>>(frame@),
            ) && zlib_rs_content(frame@) == Some(data@),
            Err(text) => zlib_rs_outcomes(data@, level).contains(
                Err::<Seq<u8>, Seq<char>>(text@),
            ),
        },
{
    let mut output = vec![0; zlib_rs::compress_bound(data.len())];
    let config = zlib_rs::DeflateConfig::new(level);
    match zlib_rs::compress_slice(&mut output, data, config) {
        (encoded, zlib_rs::ReturnCode::Ok) => Ok(encoded.to_vec()),
        (_, status) => Err(format!("zlib-rs compression returned {status:?}")),
    }
}

/// Calls `zlib_rs::decompress_slice` with room for `capacity` bytes. The claim is
/// that bytes it returns are what the stream holds, and that it fails only where
/// the stream holds nothing or more than fits. Without any room a stream of one
/// byte also comes back, as no bytes: the decoder probes with a byte of its own.
#[verifier::external_body]
pub(crate) fn zlib_rs_decompress(frame: &[u8], capacity: usize) -> (data: Result<Vec<u8>, String>)
    requires
        capacity <= isize::MAX,
    ensures
        match data {
            Ok(data) => match zlib_rs_content(frame@) {
                Some(content) => data@ == content || capacity == 0 && data@.len() == 0
                    && content.len() == 1,
                None => false,
            },
            Err(_) => match zlib_rs_content(frame@) {
                Some(content) => content.len() > capacity,
                None => true,
            },
        },
{
    let mut output = vec![0; capacity];
    let config = zlib_rs::InflateConfig::default();
    match zlib_rs::decompress_slice(&mut output, frame, config) {
        (decoded, zlib_rs::ReturnCode::Ok) => Ok(decoded.to_vec()),
        (_, status) => Err(format!("zlib-rs decompression returned {status:?}")),
    }
}

/// What `brotli::BrotliDecompress` writes for a stream, where it accepts it.
pub uninterp spec fn brotli_content(frame: Seq<u8>) -> Option<Seq<u8>>;

/// What `brotli::BrotliCompress` may make of data at a quality: a stream, or the
/// text of an error.
pub uninterp spec fn brotli_outcomes(data: Seq<u8>, quality: i32) -> Set<Result<Seq<u8>, Seq<char>>>;

/// Calls `brotli::BrotliCompress` at a quality. The claim is that a stream or an
/// error it returns is an outcome for this data and quality, and that a stream
/// holds exactly `data`. Which outcome comes back stays open.
#[verifier::external_body]
pub(crate) fn brotli_compress(data: &[u8], quality: i32) -> (frame: Result<Vec<u8>, String>)
    requires
        2 * data@.len() + 0x2_0000 <= isize::MAX,
        0 <= quality <= 9,
    ensures
        match frame {
            Ok(frame) => brotli_outcomes(data@, quality).contains(
                Ok::<Seq<u8>, Seq<char>>(frame@),
            ) && brotli_content(frame@) == Some(data@),
            Err(text) => brotli_outcomes(data@, quality).contains(
                Err::<Seq<u8>, Seq<char>>(text@),
            ),
        },
{
    let parameters = brotli::enc::BrotliEncoderParams { quality, ..Default::default() };
    let mut input = data;
    let mut output = Vec::new();
    brotli::BrotliCompress(&mut input, &mut output, &parameters).map_err(|error| error.to_string())?;
    Ok(output)
}

/// Calls `brotli::BrotliDecompress`. The claim is that the outcome depends on the
/// stream alone; `capacity` is only what is reserved.
#[verifier::external_body]
pub(crate) fn brotli_decompress(frame: &[u8], capacity: usize) -> (data: Result<Vec<u8>, String>)
    requires
        capacity <= isize::MAX,
    ensures
        match data {
            Ok(data) => brotli_content(frame@) == Some(data@),
            Err(_) => brotli_content(frame@) is None,
        },
{
    let mut input = frame;
    let mut output = Vec::with_capacity(capacity);
    brotli::BrotliDecompress(&mut input, &mut output).map_err(|error| error.to_string())?;
    Ok(output)
}

/// What `bzip2::read::BzDecoder` reads out of a stream, where it reads to the
/// end.
pub uninterp spec fn bzip2_content(frame: Seq<u8>) -> Option<Seq<u8>>;

/// What `bzip2::write::BzEncoder` may make of data at its best compression: a
/// stream, or the text of an error.
pub uninterp spec fn bzip2_outcomes(data: Seq<u8>) -> Set<Result<Seq<u8>, Seq<char>>>;

/// Writes `data` to a `bzip2::write::BzEncoder` at its best compression and
/// finishes it. The claim is that a stream or an error it returns is an outcome
/// for this data, and that a stream holds exactly `data`. Which outcome comes back
/// stays open.
#[verifier::external_body]
pub(crate) fn bzip2_compress(data: &[u8]) -> (frame: Result<Vec<u8>, String>)
    requires
        2 * data@.len() + 0x2_0000 <= isize::MAX,
    ensures
        match frame {
            Ok(frame) => bzip2_outcomes(data@).contains(
                Ok::<Seq<u8>, Seq<char>>(frame@),
            ) && bzip2_content(frame@) == Some(data@),
            Err(text) => bzip2_outcomes(data@).contains(
                Err::<Seq<u8>, Seq<char>>(text@),
            ),
        },
{
    let mut encoder = bzip2::write::BzEncoder::new(Vec::new(), bzip2::Compression::best());
    encoder.write_all(data).map_err(|error| error.to_string())?;
    encoder.finish().map_err(|error| error.to_string())
}

/// Reads a `bzip2::read::BzDecoder` to its end. The claim is that the outcome
/// depends on the stream alone; `capacity` is only what is reserved.
#[verifier::external_body]
pub(crate) fn bzip2_decompress(frame: &[u8], capacity: usize) -> (data: Result<Vec<u8>, String>)
    requires
        capacity <= isize::MAX,
    ensures
        match data {
            Ok(data) => bzip2_content(frame@) == Some(data@),
            Err(_) => bzip2_content(frame@) is None,
        },
{
    let mut decoder = bzip2::read::BzDecoder::new(frame);
    let mut output = Vec::with_capacity(capacity);
    decoder.read_to_end(&mut output).map_err(|error| error.to_string())?;
    Ok(output)
}

/// What `xz2::read::XzDecoder` reads out of a stream, where it reads to the end.
pub uninterp spec fn xz2_content(frame: Seq<u8>) -> Option<Seq<u8>>;

/// What `xz2::write::XzEncoder` may make of data at a preset: a stream, or the
/// text of an error.
pub uninterp spec fn xz2_outcomes(data: Seq<u8>, preset: u32) -> Set<Result<Seq<u8>, Seq<char>>>;

/// Writes `data` to an `xz2::write::XzEncoder` and finishes it. The claim is that
/// a stream or an error it returns is an outcome for this data and preset, and that
/// a stream holds exactly `data`. Which outcome comes back stays open.
#[verifier::external_body]
pub(crate) fn xz2_compress(data: &[u8], preset: u32) -> (frame: Result<Vec<u8>, String>)
    requires
        2 * data@.len() + 0x2_0000 <= isize::MAX,
        preset <= 9,
    ensures
        match frame {
            Ok(frame) => xz2_outcomes(data@, preset).contains(
                Ok::<Seq<u8>, Seq<char>>(frame@),
            ) && xz2_content(frame@) == Some(data@),
            Err(text) => xz2_outcomes(data@, preset).contains(
                Err::<Seq<u8>, Seq<char>>(text@),
            ),
        },
{
    let mut encoder = xz2::write::XzEncoder::new(Vec::new(), preset);
    encoder.write_all(data).map_err(|error| error.to_string())?;
    encoder.finish().map_err(|error| error.to_string())
}

/// Reads an `xz2::read::XzDecoder` to its end. The claim is that the outcome
/// depends on the stream alone; `capacity` is only what is reserved.
#[verifier::external_body]
pub(crate) fn xz2_decompress(frame: &[u8], capacity: usize) -> (data: Result<Vec<u8>, String>)
    requires
        capacity <= isize::MAX,
    ensures
        match data {
            Ok(data) => xz2_content(frame@) == Some(data@),
            Err(_) => xz2_content(frame@) is None,
        },
{
    let mut decoder = xz2::read::XzDecoder::new(frame);
    let mut output = Vec::with_capacity(capacity);
    decoder.read_to_end(&mut output).map_err(|error| error.to_string())?;
    Ok(output)
}

/// What `lzma_rust2::XzReader` reads out of a stream, where it reads to the end.
pub uninterp spec fn lzma_rust2_content(frame: Seq<u8>) -> Option<Seq<u8>>;

/// What `lzma_rust2::XzWriter` may make of data at a preset: a stream, or the text
/// of an error.
pub uninterp spec fn lzma_rust2_outcomes(data: Seq<u8>, preset: u32) -> Set<Result<Seq<u8>, Seq<char>>>;

/// Writes `data` to an `lzma_rust2::XzWriter` and finishes it. The claim is that
/// a stream or an error it returns is an outcome for this data and preset, and that
/// a stream holds exactly `data`. Which outcome comes back stays open.
#[verifier::external_body]
pub(crate) fn lzma_rust2_compress(data: &[u8], preset: u32) -> (frame: Result<Vec<u8>, String>)
    requires
        2 * data@.len() + 0x2_0000 <= isize::MAX,
        preset <= 9,
    ensures
        match frame {
            Ok(frame) => lzma_rust2_outcomes(data@, preset).contains(
                Ok::<Seq<u8>, Seq<char>>(frame@),
            ) && lzma_rust2_content(frame@) == Some(data@),
            Err(text) => lzma_rust2_outcomes(data@, preset).contains(
                Err::<Seq<u8>, Seq<char>>(text@),
            ),
        },
{
    let options = lzma_rust2::XzOptions::with_preset(preset);
    let mut encoder = lzma_rust2::XzWriter::new(Vec::new(), options).map_err(
        |error| error.to_string(),
    )?;
    encoder.write_all(data).map_err(|error| error.to_string())?;
    encoder.finish().map_err(|error| error.to_string())
}

/// Reads an `lzma_rust2::XzReader` of one stream to its end. The claim is that
/// the outcome depends on the stream alone; `capacity` is only what is reserved.
#[verifier::external_body]
pub(crate) fn lzma_rust2_decompress(frame: &[u8], capacity: usize) -> (data: Result<Vec<u8>, String>)
    requires
        capacity <= isize::MAX,
    ensures
        match data {
            Ok(data) => lzma_rust2_content(frame@) == Some(data@),
            Err(_) => lzma_rust2_content(frame@) is None,
        },
{
    let mut decoder = lzma_rust2::XzReader::new(frame, false);
    let mut output = Vec::with_capacity(capacity);
    decoder.read_to_end(&mut output).map_err(|error| error.to_string())?;
    Ok(output)
}

/// What `lzfse::decode_buffer` makes of a stream with a given number of bytes of
/// room, where it accepts it.
pub uninterp spec fn lzfse_content(frame: Seq<u8>, room: nat) -> Option<Seq<u8>>;

/// What `lzfse::encode_buffer` may make of data in so many bytes: a stream, or the
/// text of an error.
pub uninterp spec fn lzfse_outcomes(data: Seq<u8>, room: nat) -> Set<Result<Seq<u8>, Seq<char>>>;

/// Calls `lzfse::encode_buffer` with `room` bytes. The claim is that a stream or
/// an error it returns is an outcome for this data and room, and that a stream
/// comes back as exactly `data` from a decoder with more room than the data needs.
/// Which outcome comes back stays open.
#[verifier::external_body]
pub(crate) fn lzfse_compress(data: &[u8], room: usize) -> (frame: Result<Vec<u8>, String>)
    requires
        room <= isize::MAX,
    ensures
        match frame {
            Ok(frame) => lzfse_outcomes(data@, room as nat).contains(
                Ok::<Seq<u8>, Seq<char>>(frame@),
            ) && (forall|more: nat|
                more > data@.len() ==> #[trigger] lzfse_content(frame@, more) == Some(data@)),
            Err(text) => lzfse_outcomes(data@, room as nat).contains(
                Err::<Seq<u8>, Seq<char>>(text@),
            ),
        },
{
    let mut output = vec![0; room];
    let length = lzfse::encode_buffer(data, &mut output).map_err(
        |error| format!("lzfse compression failed: {error:?}"),
    )?;
    output.truncate(length);
    Ok(output)
}

/// Calls `lzfse::decode_buffer` with `room` bytes. The claim is that the outcome
/// depends on the stream and the room alone.
#[verifier::external_body]
pub(crate) fn lzfse_decompress(frame: &[u8], room: usize) -> (data: Result<Vec<u8>, String>)
    requires
        room <= isize::MAX,
    ensures
        match data {
            Ok(data) => lzfse_content(frame@, room as nat) == Some(data@),
            Err(_) => lzfse_content(frame@, room as nat) is None,
        },
{
    let mut output = vec![0; room];
    let length = lzfse::decode_buffer(frame, &mut output).map_err(
        |error| format!("lzfse decompression failed: {error:?}"),
    )?;
    output.truncate(length);
    Ok(output)
}

/// What `lzfse_rust::decode_bytes` makes of a stream, where it accepts it.
pub uninterp spec fn lzfse_rust_content(frame: Seq<u8>) -> Option<Seq<u8>>;

/// What `lzfse_rust::encode_bytes` may make of data: a stream, or the text of an
/// error.
pub uninterp spec fn lzfse_rust_outcomes(data: Seq<u8>) -> Set<Result<Seq<u8>, Seq<char>>>;

/// Calls `lzfse_rust::encode_bytes`. The claim is that a stream or an error it
/// returns is an outcome for this data, and that a stream holds exactly `data`.
/// Which outcome comes back stays open.
#[verifier::external_body]
pub(crate) fn lzfse_rust_compress(data: &[u8]) -> (frame: Result<Vec<u8>, String>)
    requires
        2 * data@.len() + 0x2_0000 <= isize::MAX,
    ensures
        match frame {
            Ok(frame) => lzfse_rust_outcomes(data@).contains(
                Ok::<Seq<u8>, Seq<char>>(frame@),
            ) && lzfse_rust_content(frame@) == Some(data@),
            Err(text) => lzfse_rust_outcomes(data@).contains(
                Err::<Seq<u8>, Seq<char>>(text@),
            ),
        },
{
    let mut output = Vec::new();
    lzfse_rust::encode_bytes(data, &mut output).map_err(|error| error.to_string())?;
    Ok(output)
}

/// Calls `lzfse_rust::decode_bytes`. The claim is that the outcome depends on the
/// stream alone; `capacity` is only what is reserved.
#[verifier::external_body]
pub(crate) fn lzfse_rust_decompress(frame: &[u8], capacity: usize) -> (data: Result<Vec<u8>, String>)
    requires
        capacity <= isize::MAX,
    ensures
        match data {
            Ok(data) => lzfse_rust_content(frame@) == Some(data@),
            Err(_) => lzfse_rust_content(frame@) is None,
        },
{
    let mut output = Vec::with_capacity(capacity);
    lzfse_rust::decode_bytes(frame, &mut output).map_err(|error| error.to_string())?;
    Ok(output)
}

/// What `zrip::decompress` makes of a frame, where it accepts it.
pub uninterp spec fn zrip_content(frame: Seq<u8>) -> Option<Seq<u8>>;

/// The frames that `zrip::compress` may return for data at a level.
pub uninterp spec fn zrip_frames(data: Seq<u8>, level: i32) -> Set<Seq<u8>>;

/// Calls `zrip::compress` at a level that exists. The claim is that it succeeds,
/// since it fails on other levels and on a full output alone and the output grows,
/// and that the frame holds exactly `data`. Which frame that is stays open.
#[verifier::external_body]
pub(crate) fn zrip_compress(data: &[u8], level: i32) -> (frame: Result<Vec<u8>, String>)
    requires
        2 * data@.len() + 0x2_0000 <= isize::MAX,
        1 <= level <= 4,
    ensures
        match frame {
            Ok(frame) => zrip_frames(data@, level).contains(frame@) && zrip_content(frame@) == Some(
                data@,
            ),
            Err(_) => false,
        },
{
    zrip::compress(data, level).map_err(|error| error.to_string())
}

/// Calls `zrip::decompress`. The claim is that the outcome depends on the frame
/// alone.
#[verifier::external_body]
pub(crate) fn zrip_decompress(frame: &[u8]) -> (data: Result<Vec<u8>, String>)
    ensures
        match data {
            Ok(data) => zrip_content(frame@) == Some(data@),
            Err(_) => zrip_content(frame@) is None,
        },
{
    zrip::decompress(frame).map_err(|error| error.to_string())
}

} // verus!
