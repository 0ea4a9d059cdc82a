//! The bridge to the zlib codec that packs the image data.

use vstd::prelude::*;
use crate::error::{DecoderError, EncoderError};

verus! {

/// The highest compression level; the lowest is 0, which packs nothing.
pub const MAX_LEVEL: u8 = 10;

/// The level used where none is asked for.
pub const DEFAULT_LEVEL: u8 = 6;

/// The zlib stream that the codec makes of `raw` at `level`.
pub uninterp spec fn deflated(raw: Seq<u8>, level: u8) -> Seq<u8>;

/// What the codec unpacks `stream` to; `None` where `stream` is not a
/// complete zlib stream.
pub uninterp spec fn inflated(stream: Seq<u8>) -> Option<Seq<u8>>;

/// `miniz_oxide::inflate::DecompressError`, the failure that the codec
/// reports for a stream that it cannot unpack. Nothing is said of what it
/// holds.
#[verifier::external_type_specification]
#[verifier::external_body]
pub struct ExDecompressError(miniz_oxide::inflate::DecompressError);

/// `miniz_oxide::deflate::compress_to_vec_zlib`. The result depends on the
/// input and the level alone, and it is taken on trust that the codec
/// unpacks what it has packed to the bytes it was given: the crate's
/// documentation shows that round trip as its use.
#[verifier::external_body]
fn deflate(raw: &[u8], level: u8) -> (stream: Vec<u8>)
    ensures
        stream@ == deflated(raw@, level),
        inflated(stream@) == Some(raw@),
{
    miniz_oxide::deflate::compress_to_vec_zlib(raw, level)
}

/// `miniz_oxide::inflate::decompress_to_vec_zlib`, without a limit on the
/// size of the result. It depends on the input alone; an error says
/// that the input is not a complete zlib stream with a matching checksum.
#[verifier::external_body]
fn inflate(stream: &[u8]) -> (raw: Result<Vec<u8>, miniz_oxide::inflate::DecompressError>)
    ensures
        match raw {
            Ok(bytes) => inflated(stream@) == Some(bytes@),
            Err(_) => inflated(stream@) is None,
        },
{
    miniz_oxide::inflate::decompress_to_vec_zlib(stream)
}

/// Whether `level` is one of the levels 0 to [`MAX_LEVEL`].
pub open spec fn level_ok(level: u8) -> bool {
    level <= MAX_LEVEL
}

/// Packs `raw` into a zlib stream at `level`. A level above
/// [`MAX_LEVEL`] is refused.
pub fn compress(raw: &[u8], level: u8) -> (r: Result<Vec<u8>, EncoderError>)
    ensures
        match r {
            Ok(stream) => level_ok(level) && stream@ == deflated(raw@, level) && inflated(
                stream@,
            ) == Some(raw@),
            Err(e) => !level_ok(level) && e == EncoderError::Level,
        },
{
    if level > MAX_LEVEL {
        return Err(EncoderError::Level);
    }
    Ok(deflate(raw, level))
}

/// What came of unpacking a stream, as this library reports it.
fn unpacked(raw: Result<Vec<u8>, miniz_oxide::inflate::DecompressError>) -> (r: Result<
    Vec<u8>,
    DecoderError,
>)
    ensures
        match r {
            Ok(bytes) => raw is Ok && bytes == raw->Ok_0,
            Err(e) => raw is Err && e == DecoderError::Zlib,
        },
{
    match raw {
        Ok(bytes) => Ok(bytes),
        Err(_) => Err(DecoderError::Zlib),
    }
}

/// Unpacks a zlib stream. A stream that is damaged or stops early is
/// refused with `Zlib`.
pub fn decompress(stream: &[u8]) -> (r: Result<Vec<u8>, DecoderError>)
    ensures
        match r {
            Ok(bytes) => inflated(stream@) == Some(bytes@),
            Err(e) => inflated(stream@) is None && e == DecoderError::Zlib,
        },
{
    unpacked(inflate(stream))
}

} // verus!
