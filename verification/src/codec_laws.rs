//! Which codecs names ask for.

use vstd::prelude::*;

use crate::codec::{
    all_codecs, archive_codecs, codec_choice, codec_list, codec_name, codec_named,
    codec_names_are_distinct, codec_profile, lemma_every_codec_is_listed, screen_codecs, Codec,
};
use crate::text::{trimmed, white_space};
use crate::text_laws::framed_texts_are_trimmed;

verus! {

proof fn lemma_bare(codec: Codec)
    ensures
        trimmed(codec_name(codec)) == codec_name(codec),
{
    let name = codec_name(codec);
    match codec {
        Codec::Copy => reveal_strlit("copy"),
        Codec::Lz4Flex => reveal_strlit("lz4_flex"),
        Codec::Lz4Native => reveal_strlit("lz4_native"),
        Codec::Lz4NativeHighCompression => reveal_strlit("lz4_native_hc-9"),
        Codec::Snappy => reveal_strlit("snap"),
        Codec::S2 => reveal_strlit("s2"),
        Codec::S2Better => reveal_strlit("s2_better"),
        Codec::S2Best => reveal_strlit("s2_best"),
        Codec::MinLzBalanced => reveal_strlit("minlz_balanced"),
        Codec::Flate2 => reveal_strlit("deflate-6"),
        Codec::Libdeflate => reveal_strlit("libdeflate-6"),
        Codec::ZlibRs => reveal_strlit("zlib_rs-6"),
        Codec::Zopfli => reveal_strlit("zopfli-5"),
        Codec::Brotli => reveal_strlit("brotli-5"),
        Codec::Bzip2 => reveal_strlit("bzip2-9"),
        Codec::Xz2 => reveal_strlit("xz2-6"),
        Codec::LzmaRust2 => reveal_strlit("lzma_rust2_xz-6"),
        Codec::Lzfse => reveal_strlit("lzfse"),
        Codec::LzfseRust => reveal_strlit("lzfse_rust"),
        Codec::ZripFast => reveal_strlit("zrip-1"),
        Codec::ZripBest => reveal_strlit("zrip-4"),
        Codec::Zstd1 => reveal_strlit("zstd-1"),
        Codec::Zstd3 => reveal_strlit("zstd-3"),
        Codec::Zstd9 => reveal_strlit("zstd-9"),
    }
    assert(name.len() > 0);
    assert(!white_space(name[0]) && !white_space(name.last()));
    let nothing = Seq::<char>::empty();
    framed_texts_are_trimmed(nothing, name, nothing);
    assert(nothing + name + nothing =~= name);
}

/// A codec is found by its name.
pub proof fn codecs_are_found_by_their_name(codec: Codec)
    ensures
        codec_named(codec_name(codec)) == Some(codec),
{
    let found = choose|other: Codec| codec_name(other) == codec_name(codec);
    codec_names_are_distinct(found, codec);
}

/// Two names ask for the two codecs, in their order; the same name twice is refused.
pub proof fn listed_codecs_are_taken_in_order(first: Codec, second: Codec)
    ensures
        first != second ==> codec_list(
            seq![codec_name(first), codec_name(second)],
            0,
            Seq::empty(),
        ) == Ok::<Seq<Codec>, Seq<char>>(seq![first, second]),
        first == second ==> codec_list(
            seq![codec_name(first), codec_name(second)],
            0,
            Seq::empty(),
        ) is Err,
        codec_list(seq![codec_name(first)], 0, Seq::empty()) == Ok::<Seq<Codec>, Seq<char>>(
            seq![first],
        ),
{
    lemma_bare(first);
    lemma_bare(second);
    codecs_are_found_by_their_name(first);
    codecs_are_found_by_their_name(second);
    let names = seq![codec_name(first), codec_name(second)];
    let alone = seq![codec_name(first)];
    let nothing = Seq::<Codec>::empty();
    assert(nothing.push(first) =~= seq![first]);
    assert(seq![first].push(second) =~= seq![first, second]);
    assert(names[0] == codec_name(first) && names[1] == codec_name(second) && names.len() == 2);
    assert(alone[0] == codec_name(first) && alone.len() == 1);
    assert(seq![first][0] == first);
    assert(seq![first].contains(first));
    assert(seq![first].contains(second) ==> first == second);
    assert(codec_list(names, 2, seq![first, second]) == Ok::<Seq<Codec>, Seq<char>>(
        seq![first, second],
    ));
    assert(codec_list(alone, 1, seq![first]) == Ok::<Seq<Codec>, Seq<char>>(seq![first]));
    let next = codec_list(names, 1, seq![first]);
    assert(codec_list(names, 0, nothing) == next);
    if first != second {
        assert(next == codec_list(names, 2, seq![first].push(second)));
    }
}

/// Every codec is in one of the two comparisons, and the third holds every codec; a
/// comparison is asked for by its name.
pub proof fn comparisons_cover_the_codecs(codec: Codec)
    ensures
        all_codecs().contains(codec),
        screen_codecs().contains(codec) || archive_codecs().contains(codec),
        codec_choice("screen"@) == Ok::<Seq<Codec>, Seq<char>>(screen_codecs()),
        codec_choice("archive"@) == Ok::<Seq<Codec>, Seq<char>>(archive_codecs()),
        codec_choice("all"@) == Ok::<Seq<Codec>, Seq<char>>(all_codecs()),
{
    reveal_strlit("screen");
    reveal_strlit("archive");
    reveal_strlit("all");
    lemma_word("screen"@);
    lemma_word("archive"@);
    lemma_word("all"@);
    assert(codec_profile("archive"@) == Some(archive_codecs()));
    assert(codec_profile("all"@) == Some(all_codecs()));
    lemma_every_codec_is_listed(codec);
    let (screen, archive) = (screen_codecs(), archive_codecs());
    match codec {
        Codec::Copy => assert(screen[0] == codec),
        Codec::Lz4Flex => assert(screen[1] == codec),
        Codec::Lz4Native => assert(screen[2] == codec),
        Codec::Lz4NativeHighCompression => assert(screen[3] == codec),
        Codec::Snappy => assert(screen[4] == codec),
        Codec::S2 => assert(screen[5] == codec),
        Codec::S2Better => assert(screen[6] == codec),
        Codec::S2Best => assert(archive[0] == codec),
        Codec::MinLzBalanced => assert(screen[7] == codec),
        Codec::Flate2 => assert(screen[8] == codec),
        Codec::Libdeflate => assert(screen[9] == codec),
        Codec::ZlibRs => assert(screen[10] == codec),
        Codec::Zopfli => assert(archive[1] == codec),
        Codec::Brotli => assert(screen[11] == codec),
        Codec::Bzip2 => assert(archive[2] == codec),
        Codec::Xz2 => assert(archive[3] == codec),
        Codec::LzmaRust2 => assert(archive[4] == codec),
        Codec::Lzfse => assert(screen[12] == codec),
        Codec::LzfseRust => assert(screen[13] == codec),
        Codec::ZripFast => assert(screen[14] == codec),
        Codec::ZripBest => assert(screen[15] == codec),
        Codec::Zstd1 => assert(screen[16] == codec),
        Codec::Zstd3 => assert(screen[17] == codec),
        Codec::Zstd9 => assert(screen[18] == codec),
    }
}

proof fn lemma_word(word: Seq<char>)
    requires
        word.len() > 0,
        !white_space(word[0]),
        !white_space(word.last()),
    ensures
        trimmed(word) == word,
{
    let nothing = Seq::<char>::empty();
    framed_texts_are_trimmed(nothing, word, nothing);
    assert(nothing + word + nothing =~= word);
}

} // verus!
