//! The frame control record (`fcTL`).

use vstd::prelude::*;
use crate::chunk::{Chunk, ChunkView};
use crate::consts::FRAME_CONTROL;
use crate::decoder::Parser;
use crate::encoder::{lemma_chunk_written, Enc, EncView};
use crate::error::{DecoderError, EncoderError};
use crate::wire::{be16, be32, frame, lemma_word16_be16, lemma_word32_be32, word16, word32};

verus! {

/// What becomes of the frame's region before the next frame is drawn.
#[derive(Copy, Clone, Debug, PartialEq, Eq, Structural)]
pub enum DisposeOp {
    /// It is left as it is.
    Leave,
    /// It is cleared to transparent black.
    Background,
    /// It is set back to what it was before the frame.
    Previous,
}

/// How the frame is put onto what is there.
#[derive(Copy, Clone, Debug, PartialEq, Eq, Structural)]
pub enum BlendOp {
    /// It replaces the region.
    Source,
    /// It is composited over the region.
    Over,
}

impl DisposeOp {
    /// The byte that stands for the operation.
    pub open spec fn code(self) -> u8 {
        match self {
            DisposeOp::Leave => 0,
            DisposeOp::Background => 1,
            DisposeOp::Previous => 2,
        }
    }

    /// The operation that `code` stands for.
    pub open spec fn from_code(code: u8) -> Option<DisposeOp> {
        if code == 0 {
            Some(DisposeOp::Leave)
        } else if code == 1 {
            Some(DisposeOp::Background)
        } else if code == 2 {
            Some(DisposeOp::Previous)
        } else {
            None
        }
    }

    /// The byte that stands for the operation.
    pub fn to_code(self) -> (code: u8)
        ensures
            code == self.code(),
    {
        match self {
            DisposeOp::Leave => 0,
            DisposeOp::Background => 1,
            DisposeOp::Previous => 2,
        }
    }

    /// The operation that `code` stands for, if any.
    pub fn of_code(code: u8) -> (op: Option<DisposeOp>)
        ensures
            op == DisposeOp::from_code(code),
    {
        match code {
            0 => Some(DisposeOp::Leave),
            1 => Some(DisposeOp::Background),
            2 => Some(DisposeOp::Previous),
            _ => None,
        }
    }
}

impl BlendOp {
    /// The byte that stands for the operation.
    pub open spec fn code(self) -> u8 {
        match self {
            BlendOp::Source => 0,
            BlendOp::Over => 1,
        }
    }

    /// The operation that `code` stands for.
    pub open spec fn from_code(code: u8) -> Option<BlendOp> {
        if code == 0 {
            Some(BlendOp::Source)
        } else if code == 1 {
            Some(BlendOp::Over)
        } else {
            None
        }
    }

    /// The byte that stands for the operation.
    pub fn to_code(self) -> (code: u8)
        ensures
            code == self.code(),
    {
        match self {
            BlendOp::Source => 0,
            BlendOp::Over => 1,
        }
    }

    /// The operation that `code` stands for, if any.
    pub fn of_code(code: u8) -> (op: Option<BlendOp>)
        ensures
            op == BlendOp::from_code(code),
    {
        match code {
            0 => Some(BlendOp::Source),
            1 => Some(BlendOp::Over),
            _ => None,
        }
    }
}

/// Frame Control Chunk Data (fcTL)
#[derive(Copy, Clone, Debug, PartialEq, Eq, Structural)]
pub struct FrameControl {
    /// Where the chunk stands among the chunks of the animation
    pub sequence_number: u32,
    /// Width of the frame
    pub width: u32,
    /// Height of the frame
    pub height: u32,
    /// Column at which the frame is drawn
    pub x_offset: u32,
    /// Row at which the frame is drawn
    pub y_offset: u32,
    /// Numerator of the time the frame is shown, in seconds
    pub delay_num: u16,
    /// Denominator of the time the frame is shown
    pub delay_den: u16,
    /// What becomes of the region afterwards
    pub dispose_op: DisposeOp,
    /// How the frame is put onto what is there
    pub blend_op: BlendOp,
}

impl FrameControl {
    /// The twenty-six bytes of the record.
    pub open spec fn payload(self) -> Seq<u8> {
        be32(self.sequence_number) + be32(self.width) + be32(self.height) + be32(self.x_offset)
            + be32(self.y_offset) + be16(self.delay_num) + be16(self.delay_den) + seq![
            self.dispose_op.code(),
            self.blend_op.code(),
        ]
    }

    /// The record that the first twenty-six bytes of `p` spell. Fewer bytes
    /// are a length error; an unknown operation is a field error.
    pub open spec fn parse_spec(p: Seq<u8>) -> Result<FrameControl, DecoderError> {
        if p.len() < 26 {
            Err(DecoderError::ChunkLength)
        } else {
            match (DisposeOp::from_code(p[24]), BlendOp::from_code(p[25])) {
                (Some(dispose_op), Some(blend_op)) => Ok(
                    FrameControl {
                        sequence_number: word32(p),
                        width: word32(p.skip(4)),
                        height: word32(p.skip(8)),
                        x_offset: word32(p.skip(12)),
                        y_offset: word32(p.skip(16)),
                        delay_num: word16(p.skip(20)),
                        delay_den: word16(p.skip(22)),
                        dispose_op,
                        blend_op,
                    },
                ),
                _ => Err(DecoderError::FrameControlField),
            }
        }
    }

    /// Every record reads back from its own bytes.
    pub proof fn lemma_round_trip(self)
        ensures
            self.payload().len() == 26,
            FrameControl::parse_spec(self.payload()) == Ok::<FrameControl, DecoderError>(self),
    {
        let p = self.payload();
        lemma_word32_be32(self.sequence_number);
        lemma_word32_be32(self.width);
        lemma_word32_be32(self.height);
        lemma_word32_be32(self.x_offset);
        lemma_word32_be32(self.y_offset);
        lemma_word16_be16(self.delay_num);
        lemma_word16_be16(self.delay_den);
        assert(p.len() == 26);
        assert(p.subrange(0, 4) =~= be32(self.sequence_number));
        assert(p.subrange(4, 8) =~= be32(self.width));
        assert(p.subrange(8, 12) =~= be32(self.height));
        assert(p.subrange(12, 16) =~= be32(self.x_offset));
        assert(p.subrange(16, 20) =~= be32(self.y_offset));
        assert(p.subrange(20, 22) =~= be16(self.delay_num));
        assert(p.subrange(22, 24) =~= be16(self.delay_den));
        assert(word32(p) == word32(p.subrange(0, 4)));
        assert(word32(p.skip(4)) == word32(p.subrange(4, 8)));
        assert(word32(p.skip(8)) == word32(p.subrange(8, 12)));
        assert(word32(p.skip(12)) == word32(p.subrange(12, 16)));
        assert(word32(p.skip(16)) == word32(p.subrange(16, 20)));
        assert(word16(p.skip(20)) == word16(p.subrange(20, 22)));
        assert(word16(p.skip(22)) == word16(p.subrange(22, 24)));
        assert(p[24] == self.dispose_op.code());
        assert(p[25] == self.blend_op.code());
    }

    /// Writes the record as one chunk.
    pub fn write(&self, enc: &mut Enc) -> (r: Result<(), EncoderError>)
        requires
            !old(enc)@.open,
        ensures
            r is Ok,
            final(enc)@ == EncView::idle(
                old(enc)@.bytes + frame(FRAME_CONTROL@, self.payload()),
                old(enc)@.limit,
            ),
    {
        enc.prepare(26, FRAME_CONTROL);
        enc.u32(self.sequence_number);
        enc.u32(self.width);
        enc.u32(self.height);
        enc.u32(self.x_offset);
        enc.u32(self.y_offset);
        enc.u16(self.delay_num);
        enc.u16(self.delay_den);
        enc.u8(self.dispose_op.to_code());
        enc.u8(self.blend_op.to_code());
        proof {
            lemma_chunk_written(old(enc)@.bytes, FRAME_CONTROL@, self.payload());
            assert(self.payload().len() == 26);
            assert(enc@.bytes =~= old(enc)@.bytes + be32(26) + FRAME_CONTROL@ + self.payload());
        }
        enc.write_crc();
        Ok(())
    }

    /// Reads the record from the payload of the chunk in hand.
    pub fn parse(parse: &mut Parser) -> (r: Result<Chunk, DecoderError>)
        ensures
            final(parse)@.same_chunk(old(parse)@),
            match FrameControl::parse_spec(old(parse)@.remaining) {
                Ok(c) => r is Ok && r->Ok_0@ == ChunkView::FrameControl(c) && final(parse)@.remaining == old(parse)@.remaining.skip(26),
                Err(e) => r is Err && r->Err_0 == e,
            },
    {
        let ghost p = parse@.remaining;
        let sequence_number: u32 = parse.u32()?;
        let width: u32 = parse.u32()?;
        assert(parse@.remaining =~= p.skip(8));
        let height: u32 = parse.u32()?;
        assert(parse@.remaining =~= p.skip(12));
        let x_offset: u32 = parse.u32()?;
        assert(parse@.remaining =~= p.skip(16));
        let y_offset: u32 = parse.u32()?;
        assert(parse@.remaining =~= p.skip(20));
        let delay_num: u16 = parse.u16()?;
        assert(parse@.remaining =~= p.skip(22));
        let delay_den: u16 = parse.u16()?;
        assert(parse@.remaining =~= p.skip(24));
        let dispose: u8 = parse.u8()?;
        let blend: u8 = parse.u8()?;
        assert(parse@.remaining =~= p.skip(26));
        let dispose_op = match DisposeOp::of_code(dispose) {
            Some(op) => op,
            None => return Err(DecoderError::FrameControlField),
        };
        let blend_op = match BlendOp::of_code(blend) {
            Some(op) => op,
            None => return Err(DecoderError::FrameControlField),
        };
        Ok(
            Chunk::FrameControl(
                FrameControl {
                    sequence_number,
                    width,
                    height,
                    x_offset,
                    y_offset,
                    delay_num,
                    delay_den,
                    dispose_op,
                    blend_op,
                },
            ),
        )
    }
}

} // verus!
