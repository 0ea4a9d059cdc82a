//! The end marker (`IEND`).

use vstd::prelude::*;
use crate::chunk::{Chunk, ChunkView};
use crate::consts::IMAGE_END;
use crate::decoder::Parser;
use crate::encoder::{lemma_chunk_written, Enc, EncView};
use crate::error::{DecoderError, EncoderError};
use crate::wire::{be32, frame};

verus! {

/// Image End Chunk Data (IEND)
#[derive(Copy, Clone, Debug, PartialEq, Eq, Structural)]
pub struct ImageEnd;

impl ImageEnd {
    /// Writes the end marker: a chunk without payload.
    pub fn write(&self, enc: &mut Enc) -> (r: Result<(), EncoderError>)
        requires
            !old(enc)@.open,
        ensures
            r is Ok,
            final(enc)@ == EncView::idle(
                old(enc)@.bytes + frame(IMAGE_END@, Seq::<u8>::empty()),
                old(enc)@.limit,
            ),
    {
        enc.prepare(0, IMAGE_END);
        proof {
            lemma_chunk_written(old(enc)@.bytes, IMAGE_END@, Seq::<u8>::empty());
            assert(enc@.bytes =~= old(enc)@.bytes + be32(0) + IMAGE_END@ + Seq::<u8>::empty());
        }
        enc.write_crc();
        Ok(())
    }

    /// Reads the end marker, which has nothing to read.
    pub fn parse(parse: &mut Parser) -> (r: Result<Chunk, DecoderError>)
        ensures
            final(parse)@ == old(parse)@,
            r is Ok,
            r->Ok_0@ == ChunkView::ImageEnd,
    {
        Ok(Chunk::ImageEnd(ImageEnd))
    }
}

} // verus!
