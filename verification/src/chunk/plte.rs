//! The palette (`PLTE`).

use vstd::prelude::*;
use crate::chunk::{Chunk, ChunkView};
use crate::consts::PALETTE;
use crate::decoder::Parser;
use crate::encoder::{lemma_chunk_written, Enc, EncView};
use crate::error::{DecoderError, EncoderError};
use crate::wire::{be32, frame};

verus! {

/// One color of the palette.
#[derive(Copy, Clone, Debug, PartialEq, Eq, Structural)]
pub struct Rgb {
    pub red: u8,
    pub green: u8,
    pub blue: u8,
}

/// Palette Chunk Data (PLTE)
#[derive(Debug, Clone, PartialEq, Eq)]
pub struct Palette {
    /// The colors, in the order of their indices
    pub colors: Vec<Rgb>,
}

impl View for Palette {
    type V = Seq<Rgb>;

    open spec fn view(&self) -> Seq<Rgb> {
        self.colors@
    }
}

/// Sample `k` of a color: red, green, blue.
pub open spec fn channel(color: Rgb, k: int) -> u8 {
    if k == 0 {
        color.red
    } else if k == 1 {
        color.green
    } else {
        color.blue
    }
}

/// The bytes of a palette: three for each color.
pub open spec fn palette_payload(colors: Seq<Rgb>) -> Seq<u8> {
    Seq::new(3 * colors.len(), |i: int| channel(colors[i / 3], i % 3))
}

/// The palette that `p` spells: one color for every three bytes. A length
/// that is no multiple of three, or that gives no color or more than 256,
/// is a length error.
pub open spec fn palette_parse(p: Seq<u8>) -> Result<Seq<Rgb>, DecoderError> {
    if p.len() == 0 || p.len() > 768 || p.len() % 3 != 0 {
        Err(DecoderError::ChunkLength)
    } else {
        Ok(
            Seq::new(
                p.len() / 3,
                |i: int| Rgb { red: p[3 * i], green: p[3 * i + 1], blue: p[3 * i + 2] },
            ),
        )
    }
}

/// Every palette of 1 to 256 colors reads back from its own bytes.
pub proof fn lemma_palette_round_trip(colors: Seq<Rgb>)
    requires
        1 <= colors.len() <= 256,
    ensures
        palette_payload(colors).len() == 3 * colors.len(),
        palette_parse(palette_payload(colors)) == Ok::<Seq<Rgb>, DecoderError>(colors),
{
    let p = palette_payload(colors);
    assert(palette_parse(p)->Ok_0 =~= colors);
}

impl Palette {
    /// Writes the palette as one chunk. One of more bytes than a length
    /// field can count is refused with `TooLong`, and nothing is written.
    pub fn write(&self, enc: &mut Enc) -> (r: Result<(), EncoderError>)
        requires
            !old(enc)@.open,
        ensures
            match r {
                Ok(()) => palette_payload(self@).len() <= u32::MAX && final(enc)@
                    == EncView::idle(
                    old(enc)@.bytes + frame(PALETTE@, palette_payload(self@)),
                    old(enc)@.limit,
                ),
                Err(e) => e == EncoderError::TooLong && palette_payload(self@).len() > u32::MAX
                    && final(enc)@ == old(enc)@,
            },
    {
        let n: usize = self.colors.len();
        if n > 0x5555_5555 {
            return Err(EncoderError::TooLong);
        }
        let len: u32 = (n * 3) as u32;
        enc.prepare(len, PALETTE);
        let ghost head = old(enc)@.bytes + be32(len) + PALETTE@;
        let mut i: usize = 0;
        while i < n
            invariant
                0 <= i <= n == self.colors@.len(),
                n <= 0x5555_5555,
                len == 3 * n,
                enc@ == (EncView {
                    bytes: head + palette_payload(self@.take(i as int)),
                    open: true,
                    start: old(enc)@.bytes.len() as int,
                    room: (len - 3 * i) as nat,
                    limit: old(enc)@.limit,
                }),
            decreases n - i,
        {
            let color = self.colors[i];
            enc.u8(color.red);
            enc.u8(color.green);
            enc.u8(color.blue);
            assert(palette_payload(self@.take(i + 1)) =~= palette_payload(self@.take(i as int))
                + seq![color.red, color.green, color.blue]);
            assert(enc@.bytes =~= head + palette_payload(self@.take(i + 1)));
            i = i + 1;
        }
        proof {
            assert(self@.take(n as int) =~= self@);
            lemma_chunk_written(old(enc)@.bytes, PALETTE@, palette_payload(self@));
        }
        enc.write_crc();
        Ok(())
    }

    /// Reads the palette from the payload of the chunk in hand, to its end.
    pub fn parse(parse: &mut Parser) -> (r: Result<Chunk, DecoderError>)
        ensures
            final(parse)@.same_chunk(old(parse)@),
            match palette_parse(old(parse)@.remaining) {
                Ok(c) => r is Ok && r->Ok_0@ == ChunkView::Palette(c) && final(parse)@.remaining
                    == Seq::<u8>::empty(),
                Err(e) => r is Err && r->Err_0 == e,
            },
    {
        let ghost p = parse@.remaining;
        let len: usize = parse.len();
        if len == 0 || len > 768 || len % 3 != 0 {
            return Err(DecoderError::ChunkLength);
        }
        let n: usize = len / 3;
        let mut colors: Vec<Rgb> = Vec::new();
        let mut i: usize = 0;
        assert(p.skip(0) =~= p);
        while i < n
            invariant
                0 <= i <= n,
                p.len() == 3 * n,
                parse@.same_chunk(old(parse)@),
                parse@.remaining == p.skip(3 * i),
                colors@ == palette_parse(p)->Ok_0.take(i as int),
                palette_parse(p) is Ok,
            decreases n - i,
        {
            let red: u8 = parse.u8()?;
            let green: u8 = parse.u8()?;
            let blue: u8 = parse.u8()?;
            colors.push(Rgb { red, green, blue });
            assert(parse@.remaining =~= p.skip(3 * (i + 1)));
            assert(colors@ =~= palette_parse(p)->Ok_0.take(i + 1));
            i = i + 1;
        }
        assert(parse@.remaining =~= Seq::<u8>::empty());
        assert(colors@ =~= palette_parse(p)->Ok_0);
        Ok(Chunk::Palette(Palette { colors }))
    }
}

} // verus!
