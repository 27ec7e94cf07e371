//! Zstandard frames.

use vstd::prelude::*;

verus! {

/// The bytes that a Zstandard frame holds under a dictionary, where it is a
/// frame. An empty dictionary is none.
pub uninterp spec fn zstd_dictionary_content(frame: Seq<u8>, dictionary: Seq<u8>) -> Option<Seq<u8>>;

/// The bytes that a Zstandard frame holds, where it is one.
pub open spec fn zstd_content(frame: Seq<u8>) -> Option<Seq<u8>> {
    zstd_dictionary_content(frame, Seq::empty())
}

/// What `zstd::bulk::Compressor::compress` may return for data at a level under
/// a dictionary: a frame, or the text of an error. There is more than one
/// outcome: the search for matches follows the vector instructions of the
/// machine, and memory may run out.
pub uninterp spec fn zstd_dictionary_outcomes(data: Seq<u8>, level: i32, dictionary: Seq<u8>) -> Set<Result<Seq<u8>, Seq<char>>>;

/// The frames that data may be compressed to under a dictionary.
pub open spec fn zstd_dictionary_frames(data: Seq<u8>, level: i32, dictionary: Seq<u8>) -> Set<Seq<u8>> {
    Set::new(
        |frame: Seq<u8>|
            zstd_dictionary_outcomes(data, level, dictionary).contains(
                Ok::<Seq<u8>, Seq<char>>(frame),
            ),
    )
}

/// Whether the compressor may refuse data under a dictionary with this text.
pub open spec fn zstd_dictionary_refuses(
    data: Seq<u8>,
    level: i32,
    dictionary: Seq<u8>,
    text: Seq<char>,
) -> bool {
    zstd_dictionary_outcomes(data, level, dictionary).contains(Err::<Seq<u8>, Seq<char>>(text))
}

/// The frames that data may be compressed to without a dictionary.
pub open spec fn zstd_frames(data: Seq<u8>, level: i32) -> Set<Seq<u8>> {
    zstd_dictionary_frames(data, level, Seq::empty())
}

/// Whether the compressor may refuse data with this text.
pub open spec fn zstd_refuses(data: Seq<u8>, level: i32, text: Seq<char>) -> bool {
    zstd_dictionary_refuses(data, level, Seq::empty(), text)
}

/// Calls `zstd::bulk::Compressor::with_dictionary` and its `compress`. The
/// claim is that a frame or an error it returns is an outcome for this data,
/// level and dictionary, and that a frame holds exactly `data` under the same
/// dictionary. Which outcome comes back is left open: the machine decides.
#[verifier::external_body]
pub(crate) fn zstd_dictionary_compress(data: &[u8], level: i32, dictionary: &[u8]) -> (frame: Result<
    Vec<u8>,
    String,
>)
    requires
        2 * data@.len() + 0x2_0000 <= isize::MAX,
    ensures
        match frame {
            Ok(frame) => zstd_dictionary_outcomes(data@, level, dictionary@).contains(
                Ok::<Seq<u8>, Seq<char>>(frame@),
            ) && zstd_dictionary_content(frame@, dictionary@) == Some(data@),
            Err(text) => zstd_dictionary_outcomes(data@, level, dictionary@).contains(
                Err::<Seq<u8>, Seq<char>>(text@),
            ),
        },
{
    zstd::bulk::Compressor::with_dictionary(level, dictionary)
        .and_then(|mut compressor| compressor.compress(data))
        .map_err(|error| error.to_string())
}

/// Calls `zstd::bulk::Decompressor::with_dictionary` and its `decompress`. The
/// claim is that bytes it returns are what the frame holds under the
/// dictionary, and that it fails only on bytes that are no such frame or on a
/// frame that holds more than `capacity` bytes. The wording of the error, and
/// whether a frame that is a little too large still fits, is left open.
#[verifier::external_body]
pub(crate) fn zstd_dictionary_decompress(frame: &[u8], capacity: usize, dictionary: &[u8]) -> (data:
    Result<Vec<u8>, String>)
    requires
        capacity <= isize::MAX,
    ensures
        match data {
            Ok(data) => zstd_dictionary_content(frame@, dictionary@) == Some(data@),
            Err(_) => match zstd_dictionary_content(frame@, dictionary@) {
                Some(content) => content.len() > capacity,
                None => true,
            },
        },
{
    zstd::bulk::Decompressor::with_dictionary(dictionary)
        .and_then(|mut decompressor| decompressor.decompress(frame, capacity))
        .map_err(|error| error.to_string())
}

/// Compresses without a dictionary.
pub fn zstd_compress(data: &[u8], level: i32) -> (frame: Result<Vec<u8>, String>)
    requires
        2 * data@.len() + 0x2_0000 <= isize::MAX,
    ensures
        match frame {
            Ok(frame) => zstd_frames(data@, level).contains(frame@) && zstd_content(frame@) == Some(
                data@,
            ),
            Err(text) => zstd_refuses(data@, level, text@),
        },
{
    let none: Vec<u8> = Vec::new();
    assert(none@ =~= Seq::<u8>::empty());
    zstd_dictionary_compress(data, level, none.as_slice())
}

/// Decompresses without a dictionary.
pub fn zstd_decompress(frame: &[u8], capacity: usize) -> (data: Result<Vec<u8>, String>)
    requires
        capacity <= isize::MAX,
    ensures
        match data {
            Ok(data) => zstd_content(frame@) == Some(data@),
            Err(_) => match zstd_content(frame@) {
                Some(content) => content.len() > capacity,
                None => true,
            },
        },
{
    let none: Vec<u8> = Vec::new();
    assert(none@ =~= Seq::<u8>::empty());
    zstd_dictionary_decompress(frame, capacity, none.as_slice())
}

} // verus!
