//! The header record (`IHDR`).

use vstd::prelude::*;
use crate::chunk::{Chunk, ChunkView};
use crate::consts::{IMAGE_HEADER, MAX_CHUNK};
use crate::decoder::Parser;
use crate::encoder::{lemma_chunk_written, Enc, EncView};
use crate::error::{DecoderError, EncoderError};
use crate::wire::{be32, frame, lemma_word32_be32, word32};

verus! {

/// How the samples of a pixel are to be read.
#[derive(Copy, Clone, Debug, PartialEq, Eq, Structural)]
pub enum ColorType {
    /// One grey sample.
    Grey,
    /// Red, green and blue.
    Rgb,
    /// One index into the palette.
    Palette,
    /// Grey and alpha.
    GreyAlpha,
    /// Red, green, blue and alpha.
    Rgba,
}

impl ColorType {
    /// The byte that stands for the color type in the header.
    pub open spec fn code(self) -> u8 {
        match self {
            ColorType::Grey => 0,
            ColorType::Rgb => 2,
            ColorType::Palette => 3,
            ColorType::GreyAlpha => 4,
            ColorType::Rgba => 6,
        }
    }

    /// The color type that `code` stands for.
    pub open spec fn from_code(code: u8) -> Option<ColorType> {
        if code == 0 {
            Some(ColorType::Grey)
        } else if code == 2 {
            Some(ColorType::Rgb)
        } else if code == 3 {
            Some(ColorType::Palette)
        } else if code == 4 {
            Some(ColorType::GreyAlpha)
        } else if code == 6 {
            Some(ColorType::Rgba)
        } else {
            None
        }
    }

    /// How many samples a pixel has.
    pub open spec fn channels(self) -> nat {
        match self {
            ColorType::Grey => 1,
            ColorType::Rgb => 3,
            ColorType::Palette => 1,
            ColorType::GreyAlpha => 2,
            ColorType::Rgba => 4,
        }
    }

    /// Whether samples of `depth` bits go with the color type.
    pub open spec fn allows(self, depth: u8) -> bool {
        match self {
            ColorType::Grey => depth == 1 || depth == 2 || depth == 4 || depth == 8 || depth
                == 16,
            ColorType::Palette => depth == 1 || depth == 2 || depth == 4 || depth == 8,
            _ => depth == 8 || depth == 16,
        }
    }

    /// The byte that stands for the color type in the header.
    pub fn to_code(self) -> (code: u8)
        ensures
            code == self.code(),
    {
        match self {
            ColorType::Grey => 0,
            ColorType::Rgb => 2,
            ColorType::Palette => 3,
            ColorType::GreyAlpha => 4,
            ColorType::Rgba => 6,
        }
    }

    /// The color type that `code` stands for, if any.
    pub fn of_code(code: u8) -> (color: Option<ColorType>)
        ensures
            color == ColorType::from_code(code),
    {
        match code {
            0 => Some(ColorType::Grey),
            2 => Some(ColorType::Rgb),
            3 => Some(ColorType::Palette),
            4 => Some(ColorType::GreyAlpha),
            6 => Some(ColorType::Rgba),
            _ => None,
        }
    }

    /// How many samples a pixel has.
    pub fn channel_count(self) -> (n: u8)
        ensures
            n == self.channels(),
    {
        match self {
            ColorType::Grey => 1,
            ColorType::Rgb => 3,
            ColorType::Palette => 1,
            ColorType::GreyAlpha => 2,
            ColorType::Rgba => 4,
        }
    }

    /// Whether samples of `depth` bits go with the color type.
    pub fn depth_ok(self, depth: u8) -> (ok: bool)
        ensures
            ok == self.allows(depth),
    {
        match self {
            ColorType::Grey => depth == 1 || depth == 2 || depth == 4 || depth == 8 || depth
                == 16,
            ColorType::Palette => depth == 1 || depth == 2 || depth == 4 || depth == 8,
            _ => depth == 8 || depth == 16,
        }
    }
}

/// Image Header Chunk Data (IHDR)
#[derive(Copy, Clone, Debug, PartialEq, Eq, Structural)]
pub struct ImageHeader {
    /// Width of the image in pixels
    pub width: u32,
    /// Height of the image in pixels
    pub height: u32,
    /// How the samples of a pixel are to be read
    pub color_type: ColorType,
    /// Bits per sample
    pub bit_depth: u8,
    /// Whether the rows come in seven interlaced passes
    pub interlace: bool,
}

impl ImageHeader {
    /// Each side is at least 1 and at most 2^31 - 1, and the bit depth goes
    /// with the color type.
    pub open spec fn valid(self) -> bool {
        &&& 1 <= self.width <= MAX_CHUNK
        &&& 1 <= self.height <= MAX_CHUNK
        &&& self.color_type.allows(self.bit_depth)
    }

    /// The thirteen bytes of the record. Compression method and filter
    /// method are always 0.
    pub open spec fn payload(self) -> Seq<u8> {
        be32(self.width) + be32(self.height) + seq![
            self.bit_depth,
            self.color_type.code(),
            0u8,
            0u8,
            if self.interlace {
                1u8
            } else {
                0u8
            },
        ]
    }

    /// The record that the first thirteen bytes of `p` spell. Fewer bytes
    /// are a length error; a value outside its domain is a field error.
    pub open spec fn parse_spec(p: Seq<u8>) -> Result<ImageHeader, DecoderError> {
        if p.len() < 13 {
            Err(DecoderError::ChunkLength)
        } else {
            match ColorType::from_code(p[9]) {
                None => Err(DecoderError::HeaderField),
                Some(color_type) => {
                    let header = ImageHeader {
                        width: word32(p),
                        height: word32(p.skip(4)),
                        color_type,
                        bit_depth: p[8],
                        interlace: p[12] == 1,
                    };
                    if !header.valid() || p[10] != 0 || p[11] != 0 || p[12] > 1 {
                        Err(DecoderError::HeaderField)
                    } else {
                        Ok(header)
                    }
                },
            }
        }
    }

    /// Every valid record reads back from its own bytes.
    pub proof fn lemma_round_trip(self)
        requires
            self.valid(),
        ensures
            self.payload().len() == 13,
            ImageHeader::parse_spec(self.payload()) == Ok::<ImageHeader, DecoderError>(self),
    {
        lemma_word32_be32(self.width);
        lemma_word32_be32(self.height);
        assert(self.payload().skip(4)[0] == be32(self.height)[0]);
    }

    /// Whether the record is valid.
    pub fn is_valid(&self) -> (ok: bool)
        ensures
            ok == self.valid(),
    {
        1 <= self.width && self.width <= MAX_CHUNK && 1 <= self.height && self.height
            <= MAX_CHUNK && self.color_type.depth_ok(self.bit_depth)
    }

    /// Writes the record as one chunk.
    pub fn write(&self, enc: &mut Enc) -> (r: Result<(), EncoderError>)
        requires
            !old(enc)@.open,
        ensures
            r is Ok,
            final(enc)@ == EncView::idle(
                old(enc)@.bytes + frame(IMAGE_HEADER@, self.payload()),
                old(enc)@.limit,
            ),
    {
        enc.prepare(13, IMAGE_HEADER);
        enc.u32(self.width);
        enc.u32(self.height);
        enc.u8(self.bit_depth);
        enc.u8(self.color_type.to_code());
        enc.u8(0);
        enc.u8(0);
        enc.u8(
            if self.interlace {
                1
            } else {
                0
            },
        );
        proof {
            lemma_chunk_written(old(enc)@.bytes, IMAGE_HEADER@, self.payload());
            assert(self.payload().len() == 13);
            assert(enc@.bytes =~= old(enc)@.bytes + be32(13) + IMAGE_HEADER@ + self.payload());
        }
        enc.write_crc();
        Ok(())
    }

    /// Reads the record from the payload of the chunk in hand.
    pub fn parse(parse: &mut Parser) -> (r: Result<Chunk, DecoderError>)
        ensures
            final(parse)@.same_chunk(old(parse)@),
            match ImageHeader::parse_spec(old(parse)@.remaining) {
                Ok(h) => r is Ok && r->Ok_0@ == ChunkView::ImageHeader(h) && final(parse)@.remaining == old(parse)@.remaining.skip(13),
                Err(e) => r is Err && r->Err_0 == e,
            },
    {
        let width: u32 = parse.u32()?;
        let height: u32 = parse.u32()?;
        let bit_depth: u8 = parse.u8()?;
        let color: u8 = parse.u8()?;
        let compression: u8 = parse.u8()?;
        let filter: u8 = parse.u8()?;
        let interlace: u8 = parse.u8()?;
        assert(parse@.remaining =~= old(parse)@.remaining.skip(13));
        let color_type = match ColorType::of_code(color) {
            Some(c) => c,
            None => return Err(DecoderError::HeaderField),
        };
        let header = ImageHeader { width, height, color_type, bit_depth, interlace: interlace == 1 };
        if !header.is_valid() || compression != 0 || filter != 0 || interlace > 1 {
            return Err(DecoderError::HeaderField);
        }
        Ok(Chunk::ImageHeader(header))
    }
}

} // verus!
