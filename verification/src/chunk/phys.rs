//! The physical pixel dimensions (`pHYs`).

use vstd::prelude::*;
use crate::chunk::{Chunk, ChunkView};
use crate::consts::PHYSICAL;
use crate::decoder::Parser;
use crate::encoder::{lemma_chunk_written, Enc, EncView};
use crate::error::{DecoderError, EncoderError};
use crate::wire::{be32, frame, lemma_word32_be32, word32};

verus! {

/// Physical dimensions chunk (pHYs)
#[derive(Copy, Clone, Debug, PartialEq, Eq, Structural)]
pub struct Physical {
    /// Pixels per unit: X dimension
    pub ppu_x: u32,
    /// Pixels per unit: Y dimension
    pub ppu_y: u32,
    /// Unit is `meter` if true, `unknown` if false.
    pub is_meter: bool,
}

impl Physical {
    /// The nine bytes of the record: the two densities and the unit flag.
    pub open spec fn payload(self) -> Seq<u8> {
        be32(self.ppu_x) + be32(self.ppu_y) + seq![
            if self.is_meter {
                1u8
            } else {
                0u8
            },
        ]
    }

    /// The record that the first nine bytes of `p` spell. Fewer bytes are a
    /// length error; a flag other than 0 and 1 is a unit error.
    pub open spec fn parse_spec(p: Seq<u8>) -> Result<Physical, DecoderError> {
        if p.len() < 9 {
            Err(DecoderError::ChunkLength)
        } else if p[8] > 1 {
            Err(DecoderError::PhysUnits)
        } else {
            Ok(Physical { ppu_x: word32(p), ppu_y: word32(p.skip(4)), is_meter: p[8] == 1 })
        }
    }

    /// Every record reads back from its own bytes.
    pub proof fn lemma_round_trip(self)
        ensures
            self.payload().len() == 9,
            Physical::parse_spec(self.payload()) == Ok::<Physical, DecoderError>(self),
    {
        lemma_word32_be32(self.ppu_x);
        lemma_word32_be32(self.ppu_y);
        assert(self.payload().skip(4)[0] == be32(self.ppu_y)[0]);
    }

    /// Writes the record as one chunk.
    pub fn write(&self, enc: &mut Enc) -> (r: Result<(), EncoderError>)
        requires
            !old(enc)@.open,
        ensures
            r is Ok,
            final(enc)@ == EncView::idle(
                old(enc)@.bytes + frame(PHYSICAL@, self.payload()),
                old(enc)@.limit,
            ),
    {
        enc.prepare(9, PHYSICAL);
        enc.u32(self.ppu_x);
        enc.u32(self.ppu_y);
        enc.u8(
            if self.is_meter {
                1
            } else {
                0
            },
        );
        proof {
            lemma_chunk_written(old(enc)@.bytes, PHYSICAL@, self.payload());
            assert(self.payload().len() == 9);
            assert(enc@.bytes =~= old(enc)@.bytes + be32(9) + PHYSICAL@ + self.payload());
            assert(enc@.start == old(enc)@.bytes.len());
        }
        enc.write_crc();
        Ok(())
    }

    /// Reads the record from the payload of the chunk in hand.
    pub fn parse(parse: &mut Parser) -> (r: Result<Chunk, DecoderError>)
        ensures
            final(parse)@.same_chunk(old(parse)@),
            match Physical::parse_spec(old(parse)@.remaining) {
                Ok(p) => r is Ok && r->Ok_0@ == ChunkView::Physical(p) && final(parse)@.remaining
                    == old(parse)@.remaining.skip(9),
                Err(e) => r is Err && r->Err_0 == e,
            },
    {
        // 9 bytes
        let ppu_x: u32 = parse.u32()?;
        let ppu_y: u32 = parse.u32()?;
        let is_meter = match parse.u8()? {
            0 => false,
            1 => true,
            _ => return Err(DecoderError::PhysUnits),
        };
        assert(parse@.remaining =~= old(parse)@.remaining.skip(9));
        Ok(Chunk::Physical(Physical { ppu_x, ppu_y, is_meter }))
    }
}

} // verus!
