//! The image data (`IDAT`).

use vstd::prelude::*;
use crate::consts::{IMAGE_DATA, MAX_CHUNK};
use crate::decoder::{Parser, ParserView};
use crate::encoder::{data_frames, Enc, EncView};
use crate::error::{DecoderError, EncoderError};
use crate::zlib::{compress, deflated, inflated, level_ok};

verus! {

/// Image Data Chunk Data (IDAT)
///
/// In a document this is the image data as it is before packing: the
/// whole stream, unpacked. [`ImageData::read`] hands out the payload of a
/// single chunk, which is a slice of the packed stream, in the same type.
#[derive(Debug, Clone, PartialEq, Eq)]
pub struct ImageData {
    /// The bytes of the image data.
    pub data: Vec<u8>,
}

impl View for ImageData {
    type V = Seq<u8>;

    open spec fn view(&self) -> Seq<u8> {
        self.data@
    }
}

/// Whether `limit` can bound the payload of an image data chunk.
pub open spec fn limit_ok(limit: u32) -> bool {
    1 <= limit <= MAX_CHUNK
}

impl ImageData {
    /// Reads the payload of the chunk in hand to its end and lets the
    /// chunk go. Returns the payload and the chunk's checksum. With no
    /// chunk in hand it fails with `ChunkLength`.
    pub fn read(parse: &mut Parser) -> (r: Result<(ImageData, u32), DecoderError>)
        ensures
            match r {
                Ok((chunk, crc)) => old(parse)@.open && chunk@ == old(parse)@.remaining && crc
                    == old(parse)@.checksum && final(parse)@ == (ParserView {
                    open: false,
                    remaining: Seq::<u8>::empty(),
                    ..old(parse)@
                }),
                Err(e) => e == DecoderError::ChunkLength && !old(parse)@.open && final(parse)@
                    == old(parse)@,
            },
    {
        if !parse.is_open() {
            return Err(DecoderError::ChunkLength);
        }
        let data = parse.vec_eof();
        let crc: u32 = parse.end()?;
        Ok((ImageData { data }, crc))
    }

    /// Packs the data at `level` and writes the stream as image data
    /// chunks, none with more payload than the writer's limit. The
    /// level is looked at first and the limit second; where either is
    /// refused nothing is written.
    pub fn write(&self, enc: &mut Enc, level: u8) -> (r: Result<(), EncoderError>)
        requires
            !old(enc)@.open,
        ensures
            match r {
                Ok(()) => level_ok(level) && limit_ok(old(enc)@.limit) && inflated(
                    deflated(self@, level),
                ) == Some(self@) && final(enc)@ == EncView::idle(
                    old(enc)@.bytes + data_frames(
                        IMAGE_DATA@,
                        deflated(self@, level),
                        old(enc)@.limit as int,
                    ),
                    old(enc)@.limit,
                ),
                Err(e) => final(enc)@ == old(enc)@ && e == (if !level_ok(level) {
                    EncoderError::Level
                } else {
                    EncoderError::ChunkLimit
                }) && !(level_ok(level) && limit_ok(old(enc)@.limit)),
            },
    {
        let zlib = compress(self.data.as_slice(), level)?;
        let limit: u32 = enc.limit();
        if limit < 1 || limit > MAX_CHUNK {
            return Err(EncoderError::ChunkLimit);
        }
        enc.image_data(zlib.as_slice());
        Ok(())
    }

    /// Construct from raw uncompressed image data.
    pub fn with_data(data: Vec<u8>) -> (chunk: ImageData)
        ensures
            chunk.data == data,
    {
        ImageData { data }
    }

    /// Get the image data
    pub fn data(&self) -> (data: &[u8])
        ensures
            data@ == self@,
    {
        self.data.as_slice()
    }
}

} // verus!
