//! The catalog of records that a chunk may hold.

use vstd::prelude::*;
use crate::consts::{
    ANIMATION_CONTROL, FRAME_CONTROL, FRAME_DATA, IMAGE_DATA, IMAGE_END, IMAGE_HEADER, PALETTE,
    PHYSICAL,
};
use crate::decoder::{Parser, ParserView};
use crate::encoder::{data_frames, Enc, EncView};
use crate::error::{DecoderError, EncoderError};
use crate::tag::{ancillary, is_ancillary, kind_of, lemma_catalog, lookup, ChunkKind};
use crate::wire::frame;
use crate::zlib::{deflated, inflated, level_ok};

pub mod actl;
pub mod fctl;
pub mod fdat;
pub mod idat;
pub mod iend;
pub mod ihdr;
pub mod phys;
pub mod plte;
pub mod unknown;

pub use self::actl::AnimationControl;
pub use self::fctl::{BlendOp, DisposeOp, FrameControl};
pub use self::fdat::{FrameData, FrameDataView};
pub use self::idat::{limit_ok, ImageData};
pub use self::iend::ImageEnd;
pub use self::ihdr::{ColorType, ImageHeader};
pub use self::phys::Physical;
pub use self::plte::{lemma_palette_round_trip, palette_parse, palette_payload, Palette, Rgb};
pub use self::unknown::{Unknown, UnknownView};

verus! {

/// One record of a document.
#[derive(Debug, Clone, PartialEq, Eq)]
pub enum Chunk {
    /// The header.
    ImageHeader(ImageHeader),
    /// The palette.
    Palette(Palette),
    /// The image data of the whole picture.
    ImageData(ImageData),
    /// The end marker.
    ImageEnd(ImageEnd),
    /// The physical pixel dimensions.
    Physical(Physical),
    /// The animation control record.
    AnimationControl(AnimationControl),
    /// A frame control record.
    FrameControl(FrameControl),
    /// A slice of the packed data of a later frame.
    FrameData(FrameData),
    /// An ancillary chunk of a type that the catalog does not hold.
    Unknown(Unknown),
}

/// What a [`Chunk`] stands for.
pub enum ChunkView {
    ImageHeader(ImageHeader),
    Palette(Seq<Rgb>),
    ImageData(Seq<u8>),
    ImageEnd,
    Physical(Physical),
    AnimationControl(AnimationControl),
    FrameControl(FrameControl),
    FrameData(FrameDataView),
    Unknown(UnknownView),
}

impl View for Chunk {
    type V = ChunkView;

    open spec fn view(&self) -> ChunkView {
        match self {
            Chunk::ImageHeader(c) => ChunkView::ImageHeader(*c),
            Chunk::Palette(c) => ChunkView::Palette(c@),
            Chunk::ImageData(c) => ChunkView::ImageData(c@),
            Chunk::ImageEnd(_) => ChunkView::ImageEnd,
            Chunk::Physical(c) => ChunkView::Physical(*c),
            Chunk::AnimationControl(c) => ChunkView::AnimationControl(*c),
            Chunk::FrameControl(c) => ChunkView::FrameControl(*c),
            Chunk::FrameData(c) => ChunkView::FrameData(c@),
            Chunk::Unknown(c) => ChunkView::Unknown(c@),
        }
    }
}

impl ChunkView {
    /// The type tag under which the record is written.
    pub open spec fn tag(self) -> Seq<u8> {
        match self {
            ChunkView::ImageHeader(_) => IMAGE_HEADER@,
            ChunkView::Palette(_) => PALETTE@,
            ChunkView::ImageData(_) => IMAGE_DATA@,
            ChunkView::ImageEnd => IMAGE_END@,
            ChunkView::Physical(_) => PHYSICAL@,
            ChunkView::AnimationControl(_) => ANIMATION_CONTROL@,
            ChunkView::FrameControl(_) => FRAME_CONTROL@,
            ChunkView::FrameData(_) => FRAME_DATA@,
            ChunkView::Unknown(c) => c.tag,
        }
    }

    /// The bytes of the record. Those of image data are the data itself,
    /// which is packed before it is written.
    pub open spec fn payload(self) -> Seq<u8> {
        match self {
            ChunkView::ImageHeader(c) => c.payload(),
            ChunkView::Palette(c) => palette_payload(c),
            ChunkView::ImageData(c) => c,
            ChunkView::ImageEnd => Seq::<u8>::empty(),
            ChunkView::Physical(c) => c.payload(),
            ChunkView::AnimationControl(c) => c.payload(),
            ChunkView::FrameControl(c) => c.payload(),
            ChunkView::FrameData(c) => c.payload(),
            ChunkView::Unknown(c) => c.data,
        }
    }

    /// The record holds what a decoder accepts: each field is in its
    /// domain, the bytes fit one chunk, and an unknown record has a tag of
    /// four bytes that is ancillary and names nothing in the catalog.
    pub open spec fn valid(self) -> bool {
        match self {
            ChunkView::ImageHeader(c) => c.valid(),
            ChunkView::Palette(c) => 1 <= c.len() <= 256,
            ChunkView::FrameData(c) => c.data.len() + 4 <= u32::MAX,
            ChunkView::Unknown(c) => c.tag.len() == 4 && kind_of(c.tag) == ChunkKind::Unknown
                && ancillary(c.tag) && c.data.len() <= u32::MAX,
            _ => true,
        }
    }

    /// Why the record is not written at `level` under `limit`, if it is
    /// not: image data for a level or a limit out of range, in that order;
    /// any other record for bytes that do not fit one chunk.
    pub open spec fn refusal(self, level: u8, limit: u32) -> Option<EncoderError> {
        match self {
            ChunkView::ImageData(_) => if !level_ok(level) {
                Some(EncoderError::Level)
            } else if !limit_ok(limit) {
                Some(EncoderError::ChunkLimit)
            } else {
                None
            },
            _ => if self.payload().len() > u32::MAX {
                Some(EncoderError::TooLong)
            } else {
                None
            },
        }
    }

    /// The chunks that the record is written as: image data is packed at
    /// `level` and cut into chunks of at most `limit` bytes of payload;
    /// any other record is one chunk.
    pub open spec fn frames(self, level: u8, limit: u32) -> Seq<u8> {
        match self {
            ChunkView::ImageData(c) => data_frames(IMAGE_DATA@, deflated(c, level), limit as int),
            _ => frame(self.tag(), self.payload()),
        }
    }
}

/// The record that a chunk of type `tag` with payload `p` holds. The
/// payload must be used up to its last byte, or the length is wrong. Image
/// data comes out as the slice that the chunk carries.
pub open spec fn parse_payload(tag: Seq<u8>, p: Seq<u8>) -> Result<ChunkView, DecoderError> {
    match kind_of(tag) {
        ChunkKind::ImageHeader => match ImageHeader::parse_spec(p) {
            Ok(c) => if p.len() == 13 {
                Ok(ChunkView::ImageHeader(c))
            } else {
                Err(DecoderError::ChunkLength)
            },
            Err(e) => Err(e),
        },
        ChunkKind::Palette => match palette_parse(p) {
            Ok(c) => Ok(ChunkView::Palette(c)),
            Err(e) => Err(e),
        },
        ChunkKind::ImageData => Ok(ChunkView::ImageData(p)),
        ChunkKind::ImageEnd => if p.len() == 0 {
            Ok(ChunkView::ImageEnd)
        } else {
            Err(DecoderError::ChunkLength)
        },
        ChunkKind::Physical => match Physical::parse_spec(p) {
            Ok(c) => if p.len() == 9 {
                Ok(ChunkView::Physical(c))
            } else {
                Err(DecoderError::ChunkLength)
            },
            Err(e) => Err(e),
        },
        ChunkKind::AnimationControl => match AnimationControl::parse_spec(p) {
            Ok(c) => if p.len() == 8 {
                Ok(ChunkView::AnimationControl(c))
            } else {
                Err(DecoderError::ChunkLength)
            },
            Err(e) => Err(e),
        },
        ChunkKind::FrameControl => match FrameControl::parse_spec(p) {
            Ok(c) => if p.len() == 26 {
                Ok(ChunkView::FrameControl(c))
            } else {
                Err(DecoderError::ChunkLength)
            },
            Err(e) => Err(e),
        },
        ChunkKind::FrameData => match FrameDataView::parse_spec(p) {
            Ok(c) => Ok(ChunkView::FrameData(c)),
            Err(e) => Err(e),
        },
        ChunkKind::Unknown => match UnknownView::parse_spec(tag, p) {
            Ok(c) => Ok(ChunkView::Unknown(c)),
            Err(e) => Err(e),
        },
    }
}

/// Every valid record but image data reads back from the chunk that it is
/// written as.
pub proof fn lemma_payload_round_trip(c: ChunkView)
    requires
        c.valid(),
        c !is ImageData,
    ensures
        c.tag().len() == 4,
        c.payload().len() <= u32::MAX,
        parse_payload(c.tag(), c.payload()) == Ok::<ChunkView, DecoderError>(c),
{
    lemma_catalog();
    match c {
        ChunkView::ImageHeader(h) => h.lemma_round_trip(),
        ChunkView::Palette(p) => lemma_palette_round_trip(p),
        ChunkView::Physical(p) => p.lemma_round_trip(),
        ChunkView::AnimationControl(a) => a.lemma_round_trip(),
        ChunkView::FrameControl(f) => f.lemma_round_trip(),
        ChunkView::FrameData(f) => f.lemma_round_trip(),
        _ => {},
    }
}

/// What parsing gives is valid, is of the kind that the tag names, and is
/// written under the tag that it was read under.
pub proof fn lemma_parsed(tag: Seq<u8>, p: Seq<u8>)
    requires
        tag.len() == 4,
        p.len() <= u32::MAX,
        parse_payload(tag, p) is Ok,
    ensures
        ({
            let c = parse_payload(tag, p)->Ok_0;
            &&& c.valid()
            &&& c.tag() == tag
            &&& c is ImageHeader <==> kind_of(tag) == ChunkKind::ImageHeader
            &&& c is ImageData <==> kind_of(tag) == ChunkKind::ImageData
            &&& c is ImageEnd <==> kind_of(tag) == ChunkKind::ImageEnd
        }),
{
}

/// The length that the layout of a kind of record fixes, for the kinds
/// whose layout fixes one.
pub open spec fn fixed_length(kind: ChunkKind) -> Option<nat> {
    match kind {
        ChunkKind::ImageHeader => Some(13),
        ChunkKind::ImageEnd => Some(0),
        ChunkKind::Physical => Some(9),
        ChunkKind::AnimationControl => Some(8),
        ChunkKind::FrameControl => Some(26),
        _ => None,
    }
}

/// A chunk of a kind with a fixed layout whose payload has another length
/// is refused; a payload that is too short is refused for its length.
pub proof fn lemma_fixed_length(tag: Seq<u8>, p: Seq<u8>)
    requires
        fixed_length(kind_of(tag)) matches Some(n) && p.len() != n,
    ensures
        parse_payload(tag, p) is Err,
        p.len() < fixed_length(kind_of(tag))->Some_0 ==> parse_payload(tag, p) == Err::<
            ChunkView,
            DecoderError,
        >(DecoderError::ChunkLength),
{
}

impl Chunk {
    /// Whether the record is valid.
    pub fn is_valid(&self) -> (ok: bool)
        ensures
            ok == self@.valid(),
    {
        match self {
            Chunk::ImageHeader(c) => c.is_valid(),
            Chunk::Palette(c) => 1 <= c.colors.len() && c.colors.len() <= 256,
            Chunk::FrameData(c) => c.data.len() <= 0xFFFF_FFFB,
            Chunk::Unknown(c) => {
                let known = lookup(&c.tag);
                proof {
                    assert(c@.tag.len() == 4);
                }
                known == ChunkKind::Unknown && is_ancillary(&c.tag) && c.data.len()
                    <= 0xFFFF_FFFF
            },
            _ => true,
        }
    }

    /// Reads the record that the chunk in hand, of type `tag`, holds, and
    /// lets the chunk go.
    pub fn parse(tag: [u8; 4], parse: &mut Parser) -> (r: Result<Chunk, DecoderError>)
        requires
            old(parse)@.open,
        ensures
            match parse_payload(tag@, old(parse)@.remaining) {
                Ok(c) => r is Ok && r->Ok_0@ == c && final(parse)@ == (ParserView {
                    open: false,
                    remaining: Seq::<u8>::empty(),
                    ..old(parse)@
                }),
                Err(e) => r is Err && r->Err_0 == e && final(parse)@.same_chunk(old(parse)@),
            },
    {
        let ghost p = parse@.remaining;
        let chunk = match lookup(&tag) {
            ChunkKind::ImageHeader => ImageHeader::parse(parse)?,
            ChunkKind::Palette => Palette::parse(parse)?,
            ChunkKind::ImageData => Chunk::ImageData(ImageData { data: parse.vec_eof() }),
            ChunkKind::ImageEnd => ImageEnd::parse(parse)?,
            ChunkKind::Physical => Physical::parse(parse)?,
            ChunkKind::AnimationControl => AnimationControl::parse(parse)?,
            ChunkKind::FrameControl => FrameControl::parse(parse)?,
            ChunkKind::FrameData => FrameData::parse(parse)?,
            ChunkKind::Unknown => Unknown::parse(tag, parse)?,
        };
        let _ = parse.end()?;
        assert(parse@.remaining =~= Seq::<u8>::empty());
        Ok(chunk)
    }

    /// Writes the record: image data packed at `level` and cut at the
    /// writer's limit, any other record as one chunk. Where the record is
    /// refused nothing is written.
    pub fn write(&self, enc: &mut Enc, level: u8) -> (r: Result<(), EncoderError>)
        requires
            !old(enc)@.open,
        ensures
            match self@.refusal(level, old(enc)@.limit) {
                Some(e) => r == Err::<(), EncoderError>(e) && final(enc)@ == old(enc)@,
                None => r is Ok && final(enc)@ == EncView::idle(
                    old(enc)@.bytes + self@.frames(level, old(enc)@.limit),
                    old(enc)@.limit,
                ),
            },
            r is Ok && self is ImageData ==> inflated(deflated(self@->ImageData_0, level))
                == Some(self@->ImageData_0),
    {
        match self {
            Chunk::ImageHeader(c) => c.write(enc),
            Chunk::Palette(c) => c.write(enc),
            Chunk::ImageData(c) => c.write(enc, level),
            Chunk::ImageEnd(c) => c.write(enc),
            Chunk::Physical(c) => c.write(enc),
            Chunk::AnimationControl(c) => c.write(enc),
            Chunk::FrameControl(c) => c.write(enc),
            Chunk::FrameData(c) => c.write(enc),
            Chunk::Unknown(c) => c.write(enc),
        }
    }
}

} // verus!
