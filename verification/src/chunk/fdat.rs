//! A slice of the packed data of a later frame (`fdAT`).

use vstd::prelude::*;
use crate::chunk::{Chunk, ChunkView};
use crate::consts::FRAME_DATA;
use crate::decoder::Parser;
use crate::encoder::{lemma_chunk_written, Enc, EncView};
use crate::error::{DecoderError, EncoderError};
use crate::wire::{be32, frame, lemma_word32_be32, word32};

verus! {

/// Frame Data Chunk Data (fdAT)
#[derive(Debug, Clone, PartialEq, Eq)]
pub struct FrameData {
    /// Where the chunk stands among the chunks of the animation
    pub sequence_number: u32,
    /// A slice of the packed stream of the frame
    pub data: Vec<u8>,
}

/// What a [`FrameData`] stands for.
pub struct FrameDataView {
    pub sequence_number: u32,
    pub data: Seq<u8>,
}

impl View for FrameData {
    type V = FrameDataView;

    open spec fn view(&self) -> FrameDataView {
        FrameDataView { sequence_number: self.sequence_number, data: self.data@ }
    }
}

impl FrameDataView {
    /// The bytes of the record: the sequence number, then the data.
    pub open spec fn payload(self) -> Seq<u8> {
        be32(self.sequence_number) + self.data
    }

    /// The record that `p` spells. Fewer than four bytes are a length
    /// error.
    pub open spec fn parse_spec(p: Seq<u8>) -> Result<FrameDataView, DecoderError> {
        if p.len() < 4 {
            Err(DecoderError::ChunkLength)
        } else {
            Ok(FrameDataView { sequence_number: word32(p), data: p.skip(4) })
        }
    }

    /// Every record reads back from its own bytes.
    pub proof fn lemma_round_trip(self)
        ensures
            self.payload().len() == self.data.len() + 4,
            FrameDataView::parse_spec(self.payload()) == Ok::<FrameDataView, DecoderError>(self),
    {
        lemma_word32_be32(self.sequence_number);
        assert(self.payload().skip(4) =~= self.data);
    }
}

impl FrameData {
    /// Writes the record as one chunk. A record whose bytes are more than
    /// a length field can count is refused with `TooLong`, and nothing is
    /// written.
    pub fn write(&self, enc: &mut Enc) -> (r: Result<(), EncoderError>)
        requires
            !old(enc)@.open,
        ensures
            match r {
                Ok(()) => self@.payload().len() <= u32::MAX && final(enc)@ == EncView::idle(
                    old(enc)@.bytes + frame(FRAME_DATA@, self@.payload()),
                    old(enc)@.limit,
                ),
                Err(e) => e == EncoderError::TooLong && self@.payload().len() > u32::MAX
                    && final(enc)@ == old(enc)@,
            },
    {
        let n: usize = self.data.len();
        if n > 0xFFFF_FFFB {
            return Err(EncoderError::TooLong);
        }
        enc.prepare((n + 4) as u32, FRAME_DATA);
        enc.u32(self.sequence_number);
        enc.raw(self.data.as_slice(), 0, n);
        proof {
            lemma_chunk_written(old(enc)@.bytes, FRAME_DATA@, self@.payload());
            assert(self.data@.subrange(0, n as int) =~= self.data@);
            assert(enc@.bytes =~= old(enc)@.bytes + be32((n + 4) as u32) + FRAME_DATA@
                + self@.payload());
        }
        enc.write_crc();
        Ok(())
    }

    /// Reads the record from the payload of the chunk in hand, to its end.
    pub fn parse(parse: &mut Parser) -> (r: Result<Chunk, DecoderError>)
        ensures
            final(parse)@.same_chunk(old(parse)@),
            match FrameDataView::parse_spec(old(parse)@.remaining) {
                Ok(c) => r is Ok && r->Ok_0@ == ChunkView::FrameData(c) && final(parse)@.remaining == Seq::<u8>::empty(),
                Err(e) => r is Err && r->Err_0 == e,
            },
    {
        let sequence_number: u32 = parse.u32()?;
        let data = parse.vec_eof();
        Ok(Chunk::FrameData(FrameData { sequence_number, data }))
    }
}

} // verus!
