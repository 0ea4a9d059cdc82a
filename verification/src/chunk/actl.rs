//! The animation control record (`acTL`).

use vstd::prelude::*;
use crate::chunk::{Chunk, ChunkView};
use crate::consts::ANIMATION_CONTROL;
use crate::decoder::Parser;
use crate::encoder::{lemma_chunk_written, Enc, EncView};
use crate::error::{DecoderError, EncoderError};
use crate::wire::{be32, frame, lemma_word32_be32, word32};

verus! {

/// Animation Control Chunk Data (acTL)
#[derive(Copy, Clone, Debug, PartialEq, Eq, Structural)]
pub struct AnimationControl {
    /// How many frames the animation has
    pub num_frames: u32,
    /// How often the animation plays; 0 for without end
    pub num_plays: u32,
}

impl AnimationControl {
    /// The eight bytes of the record.
    pub open spec fn payload(self) -> Seq<u8> {
        be32(self.num_frames) + be32(self.num_plays)
    }

    /// The record that the first eight bytes of `p` spell. Fewer bytes are
    /// a length error.
    pub open spec fn parse_spec(p: Seq<u8>) -> Result<AnimationControl, DecoderError> {
        if p.len() < 8 {
            Err(DecoderError::ChunkLength)
        } else {
            Ok(AnimationControl { num_frames: word32(p), num_plays: word32(p.skip(4)) })
        }
    }

    /// Every record reads back from its own bytes.
    pub proof fn lemma_round_trip(self)
        ensures
            self.payload().len() == 8,
            AnimationControl::parse_spec(self.payload()) == Ok::<AnimationControl, DecoderError>(
                self,
            ),
    {
        lemma_word32_be32(self.num_frames);
        lemma_word32_be32(self.num_plays);
        assert(self.payload().skip(4)[0] == be32(self.num_plays)[0]);
    }

    /// Writes the record as one chunk.
    pub fn write(&self, enc: &mut Enc) -> (r: Result<(), EncoderError>)
        requires
            !old(enc)@.open,
        ensures
            r is Ok,
            final(enc)@ == EncView::idle(
                old(enc)@.bytes + frame(ANIMATION_CONTROL@, self.payload()),
                old(enc)@.limit,
            ),
    {
        enc.prepare(8, ANIMATION_CONTROL);
        enc.u32(self.num_frames);
        enc.u32(self.num_plays);
        proof {
            lemma_chunk_written(old(enc)@.bytes, ANIMATION_CONTROL@, self.payload());
            assert(self.payload().len() == 8);
            assert(enc@.bytes =~= old(enc)@.bytes + be32(8) + ANIMATION_CONTROL@ + self.payload());
        }
        enc.write_crc();
        Ok(())
    }

    /// Reads the record from the payload of the chunk in hand.
    pub fn parse(parse: &mut Parser) -> (r: Result<Chunk, DecoderError>)
        ensures
            final(parse)@.same_chunk(old(parse)@),
            match AnimationControl::parse_spec(old(parse)@.remaining) {
                Ok(c) => r is Ok && r->Ok_0@ == ChunkView::AnimationControl(c) && final(parse)@.remaining == old(parse)@.remaining.skip(8),
                Err(e) => r is Err && r->Err_0 == e,
            },
    {
        let num_frames: u32 = parse.u32()?;
        let num_plays: u32 = parse.u32()?;
        assert(parse@.remaining =~= old(parse)@.remaining.skip(8));
        Ok(Chunk::AnimationControl(AnimationControl { num_frames, num_plays }))
    }
}

} // verus!
