//! Block compression engines and how blocks pass through them.

use vstd::prelude::*;

use crate::codec_formats::{
    brotli_compress, brotli_content, brotli_decompress, brotli_outcomes, bzip2_compress,
    bzip2_content, bzip2_decompress, bzip2_outcomes, flate2_compress, flate2_content,
    flate2_decompress, flate2_outcomes, frames_of, libdeflate_compress, libdeflate_content,
    libdeflate_decompress, libdeflate_streams, lz4_compress, lz4_content, lz4_decompress,
    lz4_flex_blocks, lz4_flex_compress, lz4_flex_content, lz4_flex_decompress, lz4_outcomes,
    lzfse_compress, lzfse_content, lzfse_decompress, lzfse_outcomes, lzfse_rust_compress,
    lzfse_rust_content, lzfse_rust_decompress, lzfse_rust_outcomes, lzma_rust2_compress,
    lzma_rust2_content, lzma_rust2_decompress, lzma_rust2_outcomes, minlz_balanced_blocks,
    minlz_balanced_compress, minlz_content, minlz_decompress, refused_with, s2_best_blocks,
    s2_best_compress, s2_better_blocks, s2_better_compress, s2_blocks, s2_compress, s2_content,
    s2_decompress, snappy_blocks, snappy_complaint, snappy_compress, snappy_content,
    snappy_decompress, snappy_fits, xz2_compress, xz2_content, xz2_decompress, xz2_outcomes,
    zlib_rs_compress, zlib_rs_content, zlib_rs_decompress, zlib_rs_outcomes, zopfli_compress,
    zopfli_streams, zrip_compress, zrip_content, zrip_decompress, zrip_frames, MAX_LZ4_BYTES,
    MAX_MINLZ_BYTES, MAX_S2_BYTES,
};
use crate::text::{
    characters, debug_quoted, debug_text, same_bytes, same_str, split, split_on, string_from, trim,
    trimmed, views,
};
use crate::zstd_frames::{
    zstd_compress, zstd_content, zstd_decompress, zstd_frames, zstd_refuses,
};

verus! {

/// One compression engine at one setting.
#[derive(Debug, Clone, Copy, PartialEq, Eq, Structural)]
pub enum Codec {
    /// Input handed through.
    Copy,
    /// `lz4_flex` blocks.
    Lz4Flex,
    /// LZ4 blocks.
    Lz4Native,
    /// LZ4 blocks of the high compression mode.
    Lz4NativeHighCompression,
    /// Snappy blocks.
    Snappy,
    /// S2 blocks.
    S2,
    /// S2 blocks with a better search.
    S2Better,
    /// S2 blocks with the best search.
    S2Best,
    /// MinLZ blocks.
    MinLzBalanced,
    /// zlib streams of `flate2`.
    Flate2,
    /// zlib streams of libdeflate.
    Libdeflate,
    /// zlib streams of `zlib-rs`.
    ZlibRs,
    /// zlib streams of Zopfli.
    Zopfli,
    /// Brotli streams.
    Brotli,
    /// bzip2 streams.
    Bzip2,
    /// xz streams of liblzma.
    Xz2,
    /// xz streams of `lzma-rust2`.
    LzmaRust2,
    /// LZFSE streams.
    Lzfse,
    /// LZFSE streams of `lzfse_rust`.
    LzfseRust,
    /// Zstandard frames of `zrip`, fast.
    ZripFast,
    /// Zstandard frames of `zrip`, best.
    ZripBest,
    /// Zstandard frames, level one.
    Zstd1,
    /// Zstandard frames, level three.
    Zstd3,
    /// Zstandard frames, level nine.
    Zstd9,
}

/// The name of a codec.
pub open spec fn codec_name(codec: Codec) -> Seq<char> {
    match codec {
        Codec::Copy => "copy"@,
        Codec::Lz4Flex => "lz4_flex"@,
        Codec::Lz4Native => "lz4_native"@,
        Codec::Lz4NativeHighCompression => "lz4_native_hc-9"@,
        Codec::Snappy => "snap"@,
        Codec::S2 => "s2"@,
        Codec::S2Better => "s2_better"@,
        Codec::S2Best => "s2_best"@,
        Codec::MinLzBalanced => "minlz_balanced"@,
        Codec::Flate2 => "deflate-6"@,
        Codec::Libdeflate => "libdeflate-6"@,
        Codec::ZlibRs => "zlib_rs-6"@,
        Codec::Zopfli => "zopfli-5"@,
        Codec::Brotli => "brotli-5"@,
        Codec::Bzip2 => "bzip2-9"@,
        Codec::Xz2 => "xz2-6"@,
        Codec::LzmaRust2 => "lzma_rust2_xz-6"@,
        Codec::Lzfse => "lzfse"@,
        Codec::LzfseRust => "lzfse_rust"@,
        Codec::ZripFast => "zrip-1"@,
        Codec::ZripBest => "zrip-4"@,
        Codec::Zstd1 => "zstd-1"@,
        Codec::Zstd3 => "zstd-3"@,
        Codec::Zstd9 => "zstd-9"@,
    }
}

/// Engines of the balanced comparison.
pub open spec fn screen_codecs() -> Seq<Codec> {
    seq![
        Codec::Copy,
        Codec::Lz4Flex,
        Codec::Lz4Native,
        Codec::Lz4NativeHighCompression,
        Codec::Snappy,
        Codec::S2,
        Codec::S2Better,
        Codec::MinLzBalanced,
        Codec::Flate2,
        Codec::Libdeflate,
        Codec::ZlibRs,
        Codec::Brotli,
        Codec::Lzfse,
        Codec::LzfseRust,
        Codec::ZripFast,
        Codec::ZripBest,
        Codec::Zstd1,
        Codec::Zstd3,
        Codec::Zstd9,
    ]
}

/// Engines of the archival comparison.
pub open spec fn archive_codecs() -> Seq<Codec> {
    seq![
        Codec::S2Best,
        Codec::Zopfli,
        Codec::Bzip2,
        Codec::Xz2,
        Codec::LzmaRust2,
        Codec::Brotli,
        Codec::ZripBest,
        Codec::Zstd9,
    ]
}

/// Every engine.
pub open spec fn all_codecs() -> Seq<Codec> {
    seq![
        Codec::Copy,
        Codec::Lz4Flex,
        Codec::Lz4Native,
        Codec::Lz4NativeHighCompression,
        Codec::Snappy,
        Codec::S2,
        Codec::S2Better,
        Codec::S2Best,
        Codec::MinLzBalanced,
        Codec::Flate2,
        Codec::Libdeflate,
        Codec::ZlibRs,
        Codec::Zopfli,
        Codec::Brotli,
        Codec::Bzip2,
        Codec::Xz2,
        Codec::LzmaRust2,
        Codec::Lzfse,
        Codec::LzfseRust,
        Codec::ZripFast,
        Codec::ZripBest,
        Codec::Zstd1,
        Codec::Zstd3,
        Codec::Zstd9,
    ]
}

/// The codec with a name.
pub open spec fn codec_named(name: Seq<char>) -> Option<Codec> {
    if exists|codec: Codec| codec_name(codec) == name {
        Some(choose|codec: Codec| codec_name(codec) == name)
    } else {
        None
    }
}

/// The codecs of a named comparison.
pub open spec fn codec_profile(name: Seq<char>) -> Option<Seq<Codec>> {
    if name == "screen"@ {
        Some(screen_codecs())
    } else if name == "archive"@ {
        Some(archive_codecs())
    } else if name == "all"@ {
        Some(all_codecs())
    } else {
        None
    }
}

/// No two codecs share a name.
pub proof fn codec_names_are_distinct(left: Codec, right: Codec)
    requires
        codec_name(left) == codec_name(right),
    ensures
        left == right,
{
    reveal_strlit("copy");
    reveal_strlit("lz4_flex");
    reveal_strlit("lz4_native");
    reveal_strlit("lz4_native_hc-9");
    reveal_strlit("snap");
    reveal_strlit("s2");
    reveal_strlit("s2_better");
    reveal_strlit("s2_best");
    reveal_strlit("minlz_balanced");
    reveal_strlit("deflate-6");
    reveal_strlit("libdeflate-6");
    reveal_strlit("zlib_rs-6");
    reveal_strlit("zopfli-5");
    reveal_strlit("brotli-5");
    reveal_strlit("bzip2-9");
    reveal_strlit("xz2-6");
    reveal_strlit("lzma_rust2_xz-6");
    reveal_strlit("lzfse");
    reveal_strlit("lzfse_rust");
    reveal_strlit("zrip-1");
    reveal_strlit("zrip-4");
    reveal_strlit("zstd-1");
    reveal_strlit("zstd-3");
    reveal_strlit("zstd-9");
    let name = codec_name(left);
    assert(name.len() == codec_name(right).len());
    assert(name[0] == codec_name(right)[0]);
    assert(name[1] == codec_name(right)[1]);
    assert(name.last() == codec_name(right).last());
}

impl Codec {
    /// The name of this codec.
    pub fn name(self) -> (name: &'static str)
        ensures
            name@ == codec_name(self),
    {
        match self {
            Codec::Copy => "copy",
            Codec::Lz4Flex => "lz4_flex",
            Codec::Lz4Native => "lz4_native",
            Codec::Lz4NativeHighCompression => "lz4_native_hc-9",
            Codec::Snappy => "snap",
            Codec::S2 => "s2",
            Codec::S2Better => "s2_better",
            Codec::S2Best => "s2_best",
            Codec::MinLzBalanced => "minlz_balanced",
            Codec::Flate2 => "deflate-6",
            Codec::Libdeflate => "libdeflate-6",
            Codec::ZlibRs => "zlib_rs-6",
            Codec::Zopfli => "zopfli-5",
            Codec::Brotli => "brotli-5",
            Codec::Bzip2 => "bzip2-9",
            Codec::Xz2 => "xz2-6",
            Codec::LzmaRust2 => "lzma_rust2_xz-6",
            Codec::Lzfse => "lzfse",
            Codec::LzfseRust => "lzfse_rust",
            Codec::ZripFast => "zrip-1",
            Codec::ZripBest => "zrip-4",
            Codec::Zstd1 => "zstd-1",
            Codec::Zstd3 => "zstd-3",
            Codec::Zstd9 => "zstd-9",
        }
    }

    /// Engines of the balanced comparison.
    pub fn screen() -> (codecs: Vec<Codec>)
        ensures
            codecs@ == screen_codecs(),
    {
        let codecs = vec![
            Codec::Copy,
            Codec::Lz4Flex,
            Codec::Lz4Native,
            Codec::Lz4NativeHighCompression,
            Codec::Snappy,
            Codec::S2,
            Codec::S2Better,
            Codec::MinLzBalanced,
            Codec::Flate2,
            Codec::Libdeflate,
            Codec::ZlibRs,
            Codec::Brotli,
            Codec::Lzfse,
            Codec::LzfseRust,
            Codec::ZripFast,
            Codec::ZripBest,
            Codec::Zstd1,
            Codec::Zstd3,
            Codec::Zstd9,
        ];
        assert(codecs@ =~= screen_codecs());
        codecs
    }

    /// Engines of the archival comparison.
    pub fn archive() -> (codecs: Vec<Codec>)
        ensures
            codecs@ == archive_codecs(),
    {
        let codecs = vec![
            Codec::S2Best,
            Codec::Zopfli,
            Codec::Bzip2,
            Codec::Xz2,
            Codec::LzmaRust2,
            Codec::Brotli,
            Codec::ZripBest,
            Codec::Zstd9,
        ];
        assert(codecs@ =~= archive_codecs());
        codecs
    }

    /// Every engine.
    pub fn all() -> (codecs: Vec<Codec>)
        ensures
            codecs@ == all_codecs(),
    {
        let codecs = vec![
            Codec::Copy,
            Codec::Lz4Flex,
            Codec::Lz4Native,
            Codec::Lz4NativeHighCompression,
            Codec::Snappy,
            Codec::S2,
            Codec::S2Better,
            Codec::S2Best,
            Codec::MinLzBalanced,
            Codec::Flate2,
            Codec::Libdeflate,
            Codec::ZlibRs,
            Codec::Zopfli,
            Codec::Brotli,
            Codec::Bzip2,
            Codec::Xz2,
            Codec::LzmaRust2,
            Codec::Lzfse,
            Codec::LzfseRust,
            Codec::ZripFast,
            Codec::ZripBest,
            Codec::Zstd1,
            Codec::Zstd3,
            Codec::Zstd9,
        ];
        assert(codecs@ =~= all_codecs());
        codecs
    }

    /// Finds the codec with a name.
    pub fn parse(name: &str) -> (codec: Option<Self>)
        ensures
            codec == codec_named(name@),
    {
        let codecs = Codec::all();
        let mut index: usize = 0;
        while index < codecs.len()
            invariant
                codecs@ == all_codecs(),
                index <= codecs@.len(),
                forall|earlier: int|
                    0 <= earlier < index ==> codec_name(#[trigger] codecs@[earlier]) != name@,
            decreases codecs@.len() - index,
        {
            let codec = codecs[index];
            if same_str(codec.name(), name) {
                proof {
                    let chosen = choose|other: Codec| codec_name(other) == name@;
                    codec_names_are_distinct(codec, chosen);
                }
                return Some(codec);
            }
            index = index + 1;
        }
        assert forall|codec: Codec| codec_name(codec) != name@ by {
            lemma_every_codec_is_listed(codec);
        }
        None
    }

    /// Finds the codecs of a named comparison.
    pub fn profile(name: &str) -> (codecs: Option<Vec<Self>>)
        ensures
            match codecs {
                Some(codecs) => codec_profile(name@) == Some(codecs@),
                None => codec_profile(name@) is None,
            },
    {
        if same_str(name, "screen") {
            Some(Codec::screen())
        } else if same_str(name, "archive") {
            Some(Codec::archive())
        } else if same_str(name, "all") {
            Some(Codec::all())
        } else {
            None
        }
    }
}

/// Every codec stands in the list of all.
pub proof fn lemma_every_codec_is_listed(codec: Codec)
    ensures
        exists|place: int| 0 <= place < all_codecs().len() && all_codecs()[place] == codec,
{
    let place: int = match codec {
        Codec::Copy => 0,
        Codec::Lz4Flex => 1,
        Codec::Lz4Native => 2,
        Codec::Lz4NativeHighCompression => 3,
        Codec::Snappy => 4,
        Codec::S2 => 5,
        Codec::S2Better => 6,
        Codec::S2Best => 7,
        Codec::MinLzBalanced => 8,
        Codec::Flate2 => 9,
        Codec::Libdeflate => 10,
        Codec::ZlibRs => 11,
        Codec::Zopfli => 12,
        Codec::Brotli => 13,
        Codec::Bzip2 => 14,
        Codec::Xz2 => 15,
        Codec::LzmaRust2 => 16,
        Codec::Lzfse => 17,
        Codec::LzfseRust => 18,
        Codec::ZripFast => 19,
        Codec::ZripBest => 20,
        Codec::Zstd1 => 21,
        Codec::Zstd3 => 22,
        Codec::Zstd9 => 23,
    };
    assert(all_codecs()[place] == codec);
}

/// The codecs that a list of names gives, after those already found.
pub open spec fn codec_list(
    names: Seq<Seq<char>>,
    place: int,
    found: Seq<Codec>,
) -> Result<Seq<Codec>, Seq<char>>
    decreases names.len() - place,
{
    if !(0 <= place < names.len()) {
        Ok(found)
    } else {
        match codec_named(trimmed(names[place])) {
            None => Err("unknown codec "@ + debug_quoted(names[place])),
            Some(codec) => if found.contains(codec) {
                Err("codec "@ + debug_quoted(names[place]) + " appears more than once"@)
            } else {
                codec_list(names, place + 1, found.push(codec))
            },
        }
    }
}

/// The codecs that a text asks for: a comparison, or names between commas.
pub open spec fn codec_choice(text: Seq<char>) -> Result<Seq<Codec>, Seq<char>> {
    match codec_profile(trimmed(text)) {
        Some(codecs) => Ok(codecs),
        None => codec_list(split_on(text, ','), 0, Seq::empty()),
    }
}

/// Whether a list holds a codec.
pub fn is_listed(codecs: &Vec<Codec>, codec: Codec) -> (listed: bool)
    ensures
        listed == codecs@.contains(codec),
{
    let mut index: usize = 0;
    while index < codecs.len()
        invariant
            index <= codecs@.len(),
            forall|earlier: int| 0 <= earlier < index ==> codecs@[earlier] != codec,
        decreases codecs@.len() - index,
    {
        if codecs[index] == codec {
            assert(codecs@[index as int] == codec);
            return true;
        }
        index = index + 1;
    }
    false
}

/// Reads a choice of codecs.
pub fn parse_codecs(value: &str) -> (codecs: Result<Vec<Codec>, String>)
    ensures
        match codecs {
            Ok(codecs) => codec_choice(value@) == Ok::<Seq<Codec>, Seq<char>>(codecs@),
            Err(text) => codec_choice(value@) == Err::<Seq<Codec>, Seq<char>>(text@),
        },
{
    let text = characters(value);
    let whole = string_from(trim(text.as_slice()));
    if let Some(codecs) = Codec::profile(whole.as_str()) {
        return Ok(codecs);
    }
    let names = split(text.as_slice(), ',');
    let ghost all = split_on(value@, ',');
    let mut codecs: Vec<Codec> = Vec::new();
    assert(codecs@ =~= Seq::<Codec>::empty());
    let mut place: usize = 0;
    while place < names.len()
        invariant
            place <= names@.len(),
            all == views(names@),
            codec_choice(value@) == codec_list(all, place as int, codecs@),
        decreases names@.len() - place,
    {
        assert(all[place as int] == names@[place as int]@);
        let name = string_from(trim(names[place].as_slice()));
        match Codec::parse(name.as_str()) {
            None => {
                let mut complaint = "unknown codec ".to_owned();
                let raw = string_from(names[place].as_slice());
                complaint.append(debug_text(raw.as_str()).as_str());
                return Err(complaint);
            },
            Some(codec) => {
                if is_listed(&codecs, codec) {
                    let mut complaint = "codec ".to_owned();
                    let raw = string_from(names[place].as_slice());
                    complaint.append(debug_text(raw.as_str()).as_str());
                    complaint.append(" appears more than once");
                    return Err(complaint);
                }
                codecs.push(codec);
            },
        }
        place = place + 1;
    }
    Ok(codecs)
}

/// A list of codecs never names one twice, whatever was asked for.
pub proof fn chosen_codecs_are_distinct(text: Seq<char>)
    ensures
        match codec_choice(text) {
            Ok(codecs) => codecs.len() > 0 && codecs.no_duplicates(),
            Err(_) => true,
        },
{
    crate::text::lemma_split_on_nonempty(text, ',');
    lemma_listed_codecs_are_distinct(split_on(text, ','), 0, Seq::empty());
}

proof fn lemma_listed_codecs_are_distinct(names: Seq<Seq<char>>, place: int, found: Seq<Codec>)
    requires
        found.no_duplicates(),
        0 <= place <= names.len(),
        found.len() > 0 || place < names.len(),
    ensures
        match codec_list(names, place, found) {
            Ok(codecs) => codecs.len() > 0 && codecs.no_duplicates(),
            Err(_) => true,
        },
    decreases names.len() - place,
{
    if place < names.len() {
        match codec_named(trimmed(names[place])) {
            Some(codec) => {
                if !found.contains(codec) {
                    lemma_listed_codecs_are_distinct(names, place + 1, found.push(codec));
                }
            },
            None => {},
        }
    }
}

/// What a codec makes of a block, decoding with room for `capacity` bytes where
/// the engine needs to be told.
pub open spec fn codec_content(codec: Codec, frame: Seq<u8>, capacity: nat) -> Option<Seq<u8>> {
    match codec {
        Codec::Copy => Some(frame),
        Codec::Lz4Flex => lz4_flex_content(frame),
        Codec::Lz4Native => lz4_content(frame),
        Codec::Lz4NativeHighCompression => lz4_content(frame),
        Codec::Snappy => snappy_content(frame),
        Codec::S2 => s2_content(frame),
        Codec::S2Better => s2_content(frame),
        Codec::S2Best => s2_content(frame),
        Codec::MinLzBalanced => minlz_content(frame),
        Codec::Flate2 => flate2_content(frame),
        Codec::Libdeflate => libdeflate_content(frame),
        Codec::ZlibRs => zlib_rs_content(frame),
        Codec::Zopfli => flate2_content(frame),
        Codec::Brotli => brotli_content(frame),
        Codec::Bzip2 => bzip2_content(frame),
        Codec::Xz2 => xz2_content(frame),
        Codec::LzmaRust2 => lzma_rust2_content(frame),
        Codec::Lzfse => lzfse_content(frame, capacity + 1),
        Codec::LzfseRust => lzfse_rust_content(frame),
        Codec::ZripFast => zrip_content(frame),
        Codec::ZripBest => zrip_content(frame),
        Codec::Zstd1 => zstd_content(frame),
        Codec::Zstd3 => zstd_content(frame),
        Codec::Zstd9 => zstd_content(frame),
    }
}

/// Whether a codec is one of the S2 engines.
pub open spec fn is_s2(codec: Codec) -> bool {
    codec == Codec::S2 || codec == Codec::S2Better || codec == Codec::S2Best
}

/// Whether a codec is one of the native LZ4 engines.
pub open spec fn is_native_lz4(codec: Codec) -> bool {
    codec == Codec::Lz4Native || codec == Codec::Lz4NativeHighCompression
}

/// Whether a codec decodes no more than the room it is given.
pub open spec fn decodes_into_room(codec: Codec) -> bool {
    codec == Codec::Libdeflate || codec == Codec::ZlibRs || codec == Codec::Zstd1 || codec
        == Codec::Zstd3 || codec == Codec::Zstd9
}

/// Whether a codec gives data of some length back.
pub open spec fn codec_holds(codec: Codec, length: nat) -> bool {
    if codec == Codec::Lz4Flex {
        length <= u32::MAX
    } else if is_s2(codec) {
        length <= MAX_S2_BYTES
    } else {
        true
    }
}

/// The blocks that a codec may make of data.
pub open spec fn codec_frames(codec: Codec, data: Seq<u8>) -> Set<Seq<u8>> {
    match codec {
        Codec::Copy => set![data],
        Codec::Lz4Flex => lz4_flex_blocks(data),
        Codec::Lz4Native => frames_of(lz4_outcomes(data, None)),
        Codec::Lz4NativeHighCompression => frames_of(lz4_outcomes(data, Some(9))),
        Codec::Snappy => snappy_blocks(data),
        Codec::S2 => s2_blocks(data),
        Codec::S2Better => s2_better_blocks(data),
        Codec::S2Best => s2_best_blocks(data),
        Codec::MinLzBalanced => minlz_balanced_blocks(data),
        Codec::Flate2 => frames_of(flate2_outcomes(data, 6)),
        Codec::Libdeflate => libdeflate_streams(data, 6),
        Codec::ZlibRs => frames_of(zlib_rs_outcomes(data, 6)),
        Codec::Zopfli => zopfli_streams(data, 5),
        Codec::Brotli => frames_of(brotli_outcomes(data, 5)),
        Codec::Bzip2 => frames_of(bzip2_outcomes(data)),
        Codec::Xz2 => frames_of(xz2_outcomes(data, 6)),
        Codec::LzmaRust2 => frames_of(lzma_rust2_outcomes(data, 6)),
        Codec::Lzfse => frames_of(lzfse_outcomes(data, data.len() + 12)),
        Codec::LzfseRust => frames_of(lzfse_rust_outcomes(data)),
        Codec::ZripFast => zrip_frames(data, 1),
        Codec::ZripBest => zrip_frames(data, 4),
        Codec::Zstd1 => zstd_frames(data, 1),
        Codec::Zstd3 => zstd_frames(data, 3),
        Codec::Zstd9 => zstd_frames(data, 9),
    }
}

/// Whether a codec takes data of some length.
pub open spec fn codec_takes(codec: Codec, length: nat) -> bool {
    if is_native_lz4(codec) {
        length <= MAX_LZ4_BYTES
    } else if codec == Codec::Snappy {
        snappy_fits(length)
    } else if codec == Codec::MinLzBalanced {
        length <= MAX_MINLZ_BYTES
    } else {
        true
    }
}

/// Whether a codec may refuse data with this text. Where the length alone
/// decides, so it does here; other engines have the last word themselves.
pub open spec fn codec_refuses(codec: Codec, data: Seq<u8>, text: Seq<char>) -> bool {
    match codec {
        Codec::Copy => false,
        Codec::Lz4Flex => false,
        Codec::Lz4Native => !codec_takes(codec, data.len()) && text
            == "Compression input too long."@,
        Codec::Lz4NativeHighCompression => refused_with(lz4_outcomes(data, Some(9)), text) && text
            == if codec_takes(codec, data.len()) {
            "Compression failed"@
        } else {
            "Compression input too long."@
        },
        Codec::Snappy => !codec_takes(codec, data.len()) && text == snappy_complaint(data.len()),
        Codec::S2 => false,
        Codec::S2Better => false,
        Codec::S2Best => false,
        Codec::MinLzBalanced => !codec_takes(codec, data.len()) && text
            == "s2: decoded block is too large"@,
        Codec::Flate2 => refused_with(flate2_outcomes(data, 6), text),
        Codec::Libdeflate => false,
        Codec::ZlibRs => refused_with(zlib_rs_outcomes(data, 6), text),
        Codec::Zopfli => false,
        Codec::Brotli => refused_with(brotli_outcomes(data, 5), text),
        Codec::Bzip2 => refused_with(bzip2_outcomes(data), text),
        Codec::Xz2 => refused_with(xz2_outcomes(data, 6), text),
        Codec::LzmaRust2 => refused_with(lzma_rust2_outcomes(data, 6), text),
        Codec::Lzfse => refused_with(lzfse_outcomes(data, data.len() + 12), text),
        Codec::LzfseRust => refused_with(lzfse_rust_outcomes(data), text),
        Codec::ZripFast => false,
        Codec::ZripBest => false,
        Codec::Zstd1 => zstd_refuses(data, 1, text),
        Codec::Zstd3 => zstd_refuses(data, 3, text),
        Codec::Zstd9 => zstd_refuses(data, 9, text),
    }
}

/// Compresses one block.
pub fn compress(codec: Codec, input: &[u8]) -> (frame: Result<Vec<u8>, String>)
    requires
        2 * input@.len() + 0x2_0000 <= isize::MAX,
        is_s2(codec) ==> input@.len() <= 0x7fff_ffff,
    ensures
        match frame {
            Ok(frame) => codec_takes(codec, input@.len()) && codec_frames(codec, input@).contains(
                frame@,
            ) && (codec_holds(codec, input@.len()) ==> forall|capacity: nat|
                capacity >= input@.len() ==> #[trigger] codec_content(codec, frame@, capacity)
                    == Some(input@)),
            Err(text) => codec_refuses(codec, input@, text@),
        },
        (is_native_lz4(codec) && frame is Ok) ==> frame->Ok_0@.len() <= i32::MAX,
{
    assert(input.len() == input@.len());
    match codec {
        Codec::Copy => Ok(vstd::slice::slice_to_vec(input)),
        Codec::Lz4Flex => Ok(lz4_flex_compress(input)),
        Codec::Lz4Native => lz4_compress(input, None),
        Codec::Lz4NativeHighCompression => lz4_compress(input, Some(9)),
        Codec::Snappy => snappy_compress(input),
        Codec::S2 => Ok(s2_compress(input)),
        Codec::S2Better => Ok(s2_better_compress(input)),
        Codec::S2Best => Ok(s2_best_compress(input)),
        Codec::MinLzBalanced => minlz_balanced_compress(input),
        Codec::Flate2 => flate2_compress(input, 6),
        Codec::Libdeflate => libdeflate_compress(input, 6),
        Codec::ZlibRs => zlib_rs_compress(input, 6),
        Codec::Zopfli => zopfli_compress(input, 5),
        Codec::Brotli => brotli_compress(input, 5),
        Codec::Bzip2 => bzip2_compress(input),
        Codec::Xz2 => xz2_compress(input, 6),
        Codec::LzmaRust2 => lzma_rust2_compress(input, 6),
        Codec::Lzfse => lzfse_compress(input, input.len() + 12),
        Codec::LzfseRust => lzfse_rust_compress(input),
        Codec::ZripFast => zrip_compress(input, 1),
        Codec::ZripBest => zrip_compress(input, 4),
        Codec::Zstd1 => zstd_compress(input, 1),
        Codec::Zstd3 => zstd_compress(input, 3),
        Codec::Zstd9 => zstd_compress(input, 9),
    }
}

/// Decompresses one block that held `source_bytes` bytes.
pub fn decompress(codec: Codec, input: &[u8], source_bytes: usize) -> (data: Result<Vec<u8>, String>)
    requires
        source_bytes < isize::MAX,
        is_native_lz4(codec) ==> input@.len() <= i32::MAX,
    ensures
        match data {
            Ok(data) => match codec_content(codec, input@, source_bytes as nat) {
                Some(content) => data@ == content || codec == Codec::ZlibRs && source_bytes == 0
                    && data@.len() == 0 && content.len() == 1,
                None => false,
            },
            Err(_) => match codec_content(codec, input@, source_bytes as nat) {
                Some(content) => decodes_into_room(codec) && content.len() > source_bytes,
                None => true,
            },
        },
{
    match codec {
        Codec::Copy => Ok(vstd::slice::slice_to_vec(input)),
        Codec::Lz4Flex => lz4_flex_decompress(input),
        Codec::Lz4Native => lz4_decompress(input),
        Codec::Lz4NativeHighCompression => lz4_decompress(input),
        Codec::Snappy => snappy_decompress(input),
        Codec::S2 => s2_decompress(input),
        Codec::S2Better => s2_decompress(input),
        Codec::S2Best => s2_decompress(input),
        Codec::MinLzBalanced => minlz_decompress(input),
        Codec::Flate2 => flate2_decompress(input, source_bytes),
        Codec::Libdeflate => libdeflate_decompress(input, source_bytes),
        Codec::ZlibRs => zlib_rs_decompress(input, source_bytes),
        Codec::Zopfli => flate2_decompress(input, source_bytes),
        Codec::Brotli => brotli_decompress(input, source_bytes),
        Codec::Bzip2 => bzip2_decompress(input, source_bytes),
        Codec::Xz2 => xz2_decompress(input, source_bytes),
        Codec::LzmaRust2 => lzma_rust2_decompress(input, source_bytes),
        Codec::Lzfse => lzfse_decompress(input, source_bytes + 1),
        Codec::LzfseRust => lzfse_rust_decompress(input, source_bytes),
        Codec::ZripFast => zrip_decompress(input),
        Codec::ZripBest => zrip_decompress(input),
        Codec::Zstd1 => zstd_decompress(input, source_bytes),
        Codec::Zstd3 => zstd_decompress(input, source_bytes),
        Codec::Zstd9 => zstd_decompress(input, source_bytes),
    }
}

/// Why a block did not pass.
#[derive(Debug, PartialEq, Eq)]
pub enum BlockFault {
    /// The engine did not compress it.
    Compression(String),
    /// The engine did not take its own block back.
    Decompression(String),
    /// The block came back as something else.
    RoundTrip,
}

impl BlockFault {
    /// What is said of the fault.
    pub open spec fn says(self, codec: Codec) -> Seq<char> {
        match self {
            BlockFault::Compression(text) => text@,
            BlockFault::Decompression(text) => text@,
            BlockFault::RoundTrip => codec_name(codec)
                + " failed first-block round-trip verification"@,
        }
    }

    /// Says what went wrong.
    pub fn message(&self, codec: Codec) -> (message: String)
        ensures
            message@ == self.says(codec),
    {
        match self {
            BlockFault::Compression(text) => text.clone(),
            BlockFault::Decompression(text) => text.clone(),
            BlockFault::RoundTrip => {
                let mut message = codec.name().to_owned();
                message.append(" failed first-block round-trip verification");
                message
            },
        }
    }
}

/// Checks that a block comes back from its codec as it was.
pub fn verify_block(codec: Codec, frame: &Vec<u8>, block: &Vec<u8>) -> (checked: Result<
    (),
    BlockFault,
>)
    requires
        block@.len() < isize::MAX,
        is_native_lz4(codec) ==> frame@.len() <= i32::MAX,
    ensures
        ({
            let content = codec_content(codec, frame@, block@.len());
            match checked {
                Ok(_) => content == Some(block@) || codec == Codec::ZlibRs && block@.len() == 0
                    && content is Some && content->0.len() == 1,
                Err(BlockFault::Decompression(_)) => content is None || decodes_into_room(codec)
                    && content->0.len() > block@.len(),
                Err(BlockFault::RoundTrip) => content is Some && content->0 != block@,
                Err(BlockFault::Compression(_)) => false,
            }
        }),
{
    assert(block.len() == block@.len());
    match decompress(codec, frame.as_slice(), block.len()) {
        Err(text) => Err(BlockFault::Decompression(text)),
        Ok(data) => {
            if same_bytes(data.as_slice(), block.as_slice()) {
                Ok(())
            } else {
                Err(BlockFault::RoundTrip)
            }
        },
    }
}

/// Compresses a block and, where asked, takes it back and compares.
pub fn encode_block(codec: Codec, block: &Vec<u8>, verified: bool) -> (frame: Result<
    Vec<u8>,
    BlockFault,
>)
    requires
        2 * block@.len() + 0x2_0000 <= isize::MAX,
        is_s2(codec) ==> block@.len() <= 0x7fff_ffff,
    ensures
        match frame {
            Ok(frame) => codec_takes(codec, block@.len()) && codec_frames(codec, block@).contains(
                frame@,
            ) && ((verified || codec_holds(codec, block@.len())) ==> codec_content(
                codec,
                frame@,
                block@.len(),
            ) == Some(block@)),
            Err(BlockFault::Compression(text)) => codec_refuses(codec, block@, text@),
            Err(_) => verified && !codec_holds(codec, block@.len()),
        },
{
    let frame = match compress(codec, block.as_slice()) {
        Ok(frame) => frame,
        Err(text) => {
            return Err(BlockFault::Compression(text));
        },
    };
    let ghost content = codec_content(codec, frame@, block@.len());
    if verified {
        match verify_block(codec, &frame, block) {
            Err(fault) => {
                return Err(fault);
            },
            Ok(_) => {},
        }
    }
    Ok(frame)
}

} // verus!
