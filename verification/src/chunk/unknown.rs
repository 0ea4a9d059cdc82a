//! A chunk of a type that the catalog does not hold.

use vstd::prelude::*;
use crate::chunk::{Chunk, ChunkView};
use crate::decoder::Parser;
use crate::encoder::{Enc, EncView};
use crate::error::{DecoderError, EncoderError};
use crate::tag::{ancillary, is_ancillary};
use crate::wire::frame;

verus! {

/// A chunk that is kept as it was found: its type tag and its payload.
#[derive(Debug, Clone, PartialEq, Eq)]
pub struct Unknown {
    /// The type tag
    pub tag: [u8; 4],
    /// The payload
    pub data: Vec<u8>,
}

/// What an [`Unknown`] stands for.
pub struct UnknownView {
    pub tag: Seq<u8>,
    pub data: Seq<u8>,
}

impl View for Unknown {
    type V = UnknownView;

    open spec fn view(&self) -> UnknownView {
        UnknownView { tag: self.tag@, data: self.data@ }
    }
}

impl UnknownView {
    /// What becomes of a payload `p` under the unknown type `tag`: kept
    /// whole where the tag is ancillary, refused where it is critical.
    pub open spec fn parse_spec(tag: Seq<u8>, p: Seq<u8>) -> Result<UnknownView, DecoderError> {
        if ancillary(tag) {
            Ok(UnknownView { tag, data: p })
        } else {
            Err(DecoderError::UnknownCritical)
        }
    }
}

impl Unknown {
    /// Writes the chunk as it is. A payload of more bytes than a length
    /// field can count is refused with `TooLong`, and nothing is written.
    pub fn write(&self, enc: &mut Enc) -> (r: Result<(), EncoderError>)
        requires
            !old(enc)@.open,
        ensures
            match r {
                Ok(()) => self@.data.len() <= u32::MAX && final(enc)@ == EncView::idle(
                    old(enc)@.bytes + frame(self@.tag, self@.data),
                    old(enc)@.limit,
                ),
                Err(e) => e == EncoderError::TooLong && self@.data.len() > u32::MAX && final(enc)@ == old(enc)@,
            },
    {
        let n: usize = self.data.len();
        if n > 0xFFFF_FFFF {
            return Err(EncoderError::TooLong);
        }
        assert(self.data@.subrange(0, n as int) =~= self.data@);
        enc.chunk(self.tag, self.data.as_slice(), 0, n);
        Ok(())
    }

    /// Keeps the payload of the chunk in hand, whose type `tag` the
    /// catalog does not hold, if the tag is ancillary; a critical one is
    /// refused with `UnknownCritical`.
    pub fn parse(tag: [u8; 4], parse: &mut Parser) -> (r: Result<Chunk, DecoderError>)
        ensures
            final(parse)@.same_chunk(old(parse)@),
            match UnknownView::parse_spec(tag@, old(parse)@.remaining) {
                Ok(c) => r is Ok && r->Ok_0@ == ChunkView::Unknown(c) && final(parse)@.remaining
                    == Seq::<u8>::empty(),
                Err(e) => r is Err && r->Err_0 == e,
            },
    {
        if !is_ancillary(&tag) {
            return Err(DecoderError::UnknownCritical);
        }
        let data = parse.vec_eof();
        Ok(Chunk::Unknown(Unknown { tag, data }))
    }
}

} // verus!
