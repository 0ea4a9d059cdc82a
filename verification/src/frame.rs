//! A frame: one picture as it is after unpacking and unfiltering, with
//! the rows it is made of.

use vstd::prelude::*;
use crate::chunk::{ColorType, FrameControl, ImageHeader};
use crate::error::{DecoderError, EncoderError};
use crate::filter::{
    filter, filter_spec, lemma_filter_round_trip, unfilter, unfilter_spec, Band,
};

verus! {

/// How many bits a pixel takes.
pub open spec fn pixel_bits(color: ColorType, depth: u8) -> nat {
    color.channels() * depth as nat
}

/// How many bytes lie between a pixel and the next; 1 where a pixel takes
/// less than a byte.
pub open spec fn pixel_step(color: ColorType, depth: u8) -> nat {
    if pixel_bits(color, depth) < 8 {
        1
    } else {
        pixel_bits(color, depth) / 8
    }
}

/// How many bytes a row of `width` pixels of `bits` bits takes.
pub open spec fn row_bytes(width: nat, bits: nat) -> nat {
    (width * bits + 7) / 8
}

/// The column at which an interlace pass begins.
pub open spec fn pass_left(pass: int) -> nat {
    if pass == 1 {
        4
    } else if pass == 3 {
        2
    } else if pass == 5 {
        1
    } else {
        0
    }
}

/// The row at which an interlace pass begins.
pub open spec fn pass_top(pass: int) -> nat {
    if pass == 2 {
        4
    } else if pass == 4 {
        2
    } else if pass == 6 {
        1
    } else {
        0
    }
}

/// The distance between the columns of an interlace pass.
pub open spec fn pass_across(pass: int) -> nat {
    if pass <= 1 {
        8
    } else if pass <= 3 {
        4
    } else if pass <= 5 {
        2
    } else {
        1
    }
}

/// The distance between the rows of an interlace pass.
pub open spec fn pass_down(pass: int) -> nat {
    if pass <= 2 {
        8
    } else if pass <= 4 {
        4
    } else {
        2
    }
}

/// How many of `size` columns or rows a pass takes that begins at `from`
/// and takes every `step`-th.
pub open spec fn pass_extent(size: nat, from: nat, step: nat) -> nat {
    if size <= from {
        0
    } else {
        ((size - from - 1) / step as int + 1) as nat
    }
}

/// The rows of a picture of `width` by `height` pixels of `bits` bits: a
/// picture without pixels has none. `None` where a row is longer than a
/// `usize` can count.
pub open spec fn band_spec(width: nat, height: nat, bits: nat) -> Option<Band> {
    if width == 0 || height == 0 {
        Some(Band { stride: 0, rows: 0 })
    } else if row_bytes(width, bits) > usize::MAX || height > usize::MAX {
        None
    } else {
        Some(Band { stride: row_bytes(width, bits) as usize, rows: height as usize })
    }
}

/// The rows of the first `passes` interlace passes.
pub open spec fn passes_spec(width: nat, height: nat, bits: nat, passes: int) -> Option<
    Seq<Band>,
>
    decreases passes,
{
    if passes <= 0 {
        Some(Seq::empty())
    } else {
        match passes_spec(width, height, bits, passes - 1) {
            None => None,
            Some(bands) => match band_spec(
                pass_extent(width, pass_left(passes - 1), pass_across(passes - 1)),
                pass_extent(height, pass_top(passes - 1), pass_down(passes - 1)),
                bits,
            ) {
                None => None,
                Some(band) => Some(bands.push(band)),
            },
        }
    }
}

/// The rows that the image data of a picture holds: those of the picture
/// from top to bottom, or, interlaced, those of the seven passes one
/// after the other.
pub open spec fn layout_spec(width: u32, height: u32, bits: nat, interlace: bool) -> Option<
    Seq<Band>,
> {
    if interlace {
        passes_spec(width as nat, height as nat, bits, 7)
    } else {
        match band_spec(width as nat, height as nat, bits) {
            None => None,
            Some(band) => Some(seq![band]),
        }
    }
}

/// The rows of a picture of `width` by `height` pixels of `bits` bits.
pub fn band_for(width: u32, height: u32, bits: u16) -> (band: Option<Band>)
    ensures
        band == band_spec(width as nat, height as nat, bits as nat),
{
    if width == 0 || height == 0 {
        return Some(Band { stride: 0, rows: 0 });
    }
    assert(width * bits <= 0xFFFF_FFFF * 0xFFFF) by (nonlinear_arith)
        requires
            width <= 0xFFFF_FFFF,
            bits <= 0xFFFF,
    ;
    let stride: u64 = (width as u64 * bits as u64 + 7) / 8;
    if stride > usize::MAX as u64 {
        return None;
    }
    Some(Band { stride: stride as usize, rows: height as usize })
}

/// How many of `size` columns or rows a pass takes that begins at `from`
/// and takes every `step`-th.
pub fn extent(size: u32, from: u32, step: u32) -> (n: u32)
    requires
        step >= 1,
    ensures
        n == pass_extent(size as nat, from as nat, step as nat),
{
    if size <= from {
        0
    } else {
        let span: u32 = size - from - 1;
        assert(span / step <= span) by (nonlinear_arith)
            requires
                step >= 1,
                span >= 0,
        ;
        span / step + 1
    }
}

/// The rows that the image data of a picture holds.
pub fn layout(width: u32, height: u32, bits: u16, interlace: bool) -> (bands: Option<Vec<Band>>)
    ensures
        match layout_spec(width, height, bits as nat, interlace) {
            Some(b) => bands is Some && bands->Some_0@ == b,
            None => bands is None,
        },
{
    let mut bands: Vec<Band> = Vec::new();
    if !interlace {
        let band = band_for(width, height, bits)?;
        bands.push(band);
        assert(bands@ =~= seq![band]);
        return Some(bands);
    }
    let mut pass: u8 = 0;
    while pass < 7
        invariant
            0 <= pass <= 7,
            interlace,
            passes_spec(width as nat, height as nat, bits as nat, pass as int) == Some(bands@),
        decreases 7 - pass,
    {
        let w: u32 = extent(width, left_of(pass), across_of(pass));
        let h: u32 = extent(height, top_of(pass), down_of(pass));
        match band_for(w, h, bits) {
            None => {
                proof {
                    assert(passes_spec(width as nat, height as nat, bits as nat, pass + 1)
                        is None);
                    lemma_passes_none(width as nat, height as nat, bits as nat, pass + 1, 7);
                }
                return None;
            },
            Some(band) => {
                bands.push(band);
            },
        }
        pass = pass + 1;
    }
    Some(bands)
}

/// The column at which an interlace pass begins.
pub fn left_of(pass: u8) -> (n: u32)
    ensures
        n == pass_left(pass as int),
{
    if pass == 1 {
        4
    } else if pass == 3 {
        2
    } else if pass == 5 {
        1
    } else {
        0
    }
}

/// The row at which an interlace pass begins.
pub fn top_of(pass: u8) -> (n: u32)
    ensures
        n == pass_top(pass as int),
{
    if pass == 2 {
        4
    } else if pass == 4 {
        2
    } else if pass == 6 {
        1
    } else {
        0
    }
}

/// The distance between the columns of an interlace pass.
pub fn across_of(pass: u8) -> (n: u32)
    ensures
        n == pass_across(pass as int),
        n >= 1,
{
    if pass <= 1 {
        8
    } else if pass <= 3 {
        4
    } else if pass <= 5 {
        2
    } else {
        1
    }
}

/// The distance between the rows of an interlace pass.
pub fn down_of(pass: u8) -> (n: u32)
    ensures
        n == pass_down(pass as int),
        n >= 1,
{
    if pass <= 2 {
        8
    } else if pass <= 4 {
        4
    } else {
        2
    }
}

/// Once the rows of a pass cannot be counted, more passes do not mend it.
proof fn lemma_passes_none(width: nat, height: nat, bits: nat, bad: int, passes: int)
    requires
        bad <= passes,
        passes_spec(width, height, bits, bad) is None,
    ensures
        passes_spec(width, height, bits, passes) is None,
    decreases passes,
{
    if bad < passes {
        lemma_passes_none(width, height, bits, bad, passes - 1);
    }
}

/// What a [`Frame`] stands for.
pub struct FrameView {
    pub width: u32,
    pub height: u32,
    pub color_type: ColorType,
    pub bit_depth: u8,
    pub interlace: bool,
    pub control: Option<FrameControl>,
    pub data: Seq<u8>,
}

/// One picture: its size and pixel format, the bytes of its rows, and, in
/// an animation, how and how long it is shown.
///
/// The rows stand in `data` one after the other, each as many bytes as
/// its pixels take, without filter types. Those of an interlaced picture
/// stand pass after pass, as the file has them.
#[derive(Debug, Clone, PartialEq, Eq)]
pub struct Frame {
    /// Width in pixels
    pub width: u32,
    /// Height in pixels
    pub height: u32,
    /// How the samples of a pixel are to be read
    pub color_type: ColorType,
    /// Bits per sample
    pub bit_depth: u8,
    /// Whether the rows stand in seven interlaced passes
    pub interlace: bool,
    /// How and how long the frame is shown, in an animation
    pub control: Option<FrameControl>,
    /// The rows
    pub data: Vec<u8>,
}

impl View for Frame {
    type V = FrameView;

    open spec fn view(&self) -> FrameView {
        FrameView {
            width: self.width,
            height: self.height,
            color_type: self.color_type,
            bit_depth: self.bit_depth,
            interlace: self.interlace,
            control: self.control,
            data: self.data@,
        }
    }
}

impl FrameView {
    /// The frame that the unpacked image data `data` holds, in a file
    /// with `header`. A frame with a control record has the size that
    /// the record gives, any other the size of the header.
    ///
    /// Rows too long to count and data of another length than the rows
    /// have give `DataLength`; an unknown filter type gives `FilterType`.
    pub open spec fn unpack(header: ImageHeader, control: Option<FrameControl>, data: Seq<u8>)
        -> Result<FrameView, DecoderError> {
        let width = match control {
            Some(c) => c.width,
            None => header.width,
        };
        let height = match control {
            Some(c) => c.height,
            None => header.height,
        };
        match layout_spec(
            width,
            height,
            pixel_bits(header.color_type, header.bit_depth),
            header.interlace,
        ) {
            None => Err(DecoderError::DataLength),
            Some(bands) => match unfilter_spec(
                data,
                bands,
                pixel_step(header.color_type, header.bit_depth) as int,
            ) {
                Err(e) => Err(e),
                Ok(raster) => Ok(
                    FrameView {
                        width,
                        height,
                        color_type: header.color_type,
                        bit_depth: header.bit_depth,
                        interlace: header.interlace,
                        control,
                        data: raster,
                    },
                ),
            },
        }
    }

    /// The image data that the frame is written as, before packing: every
    /// row behind the filter type 0. A frame whose data is not as long as
    /// its rows has none.
    pub open spec fn pack(self) -> Option<Seq<u8>> {
        match layout_spec(
            self.width,
            self.height,
            pixel_bits(self.color_type, self.bit_depth),
            self.interlace,
        ) {
            None => None,
            Some(bands) => filter_spec(self.data, bands),
        }
    }

    /// The header of a file whose picture the frame is.
    pub open spec fn header(self) -> ImageHeader {
        ImageHeader {
            width: self.width,
            height: self.height,
            color_type: self.color_type,
            bit_depth: self.bit_depth,
            interlace: self.interlace,
        }
    }
}

/// A frame that is written and read back is the frame again: what its
/// rows are packed from unpacks to the frame, in a file whose header is
/// the frame's. This holds of every frame whose data is as long as its
/// rows and whose control record, if it has one, gives the frame's size.
pub proof fn lemma_frame_round_trip(picture: FrameView)
    requires
        picture.pack() is Some,
        picture.control matches Some(c) ==> c.width == picture.width && c.height
            == picture.height,
    ensures
        FrameView::unpack(picture.header(), picture.control, picture.pack()->Some_0) == Ok::<
            FrameView,
            DecoderError,
        >(picture),
{
    let bands = layout_spec(
        picture.width,
        picture.height,
        pixel_bits(picture.color_type, picture.bit_depth),
        picture.interlace,
    )->Some_0;
    lemma_filter_round_trip(
        picture.data,
        bands,
        pixel_step(picture.color_type, picture.bit_depth) as int,
    );
}

/// How many bits a pixel takes.
pub fn bits_of(color: ColorType, depth: u8) -> (bits: u16)
    ensures
        bits == pixel_bits(color, depth),
{
    let channels: u8 = color.channel_count();
    assert(channels * depth <= 4 * 255) by (nonlinear_arith)
        requires
            channels <= 4,
            depth <= 255,
    ;
    channels as u16 * depth as u16
}

/// How many bytes lie between a pixel and the next.
pub fn step_of(color: ColorType, depth: u8) -> (step: usize)
    ensures
        step == pixel_step(color, depth),
        step >= 1,
{
    let bits: u16 = bits_of(color, depth);
    if bits < 8 {
        1
    } else {
        (bits / 8) as usize
    }
}

impl Frame {
    /// Makes a frame of unpacked image data: undoes the filter on every
    /// row.
    pub fn from_data(header: &ImageHeader, control: Option<FrameControl>, data: &[u8]) -> (r:
        Result<Frame, DecoderError>)
        ensures
            match FrameView::unpack(*header, control, data@) {
                Ok(frame) => r is Ok && r->Ok_0@ == frame,
                Err(e) => r is Err && r->Err_0 == e,
            },
    {
        let (width, height) = match control {
            Some(c) => (c.width, c.height),
            None => (header.width, header.height),
        };
        let bits: u16 = bits_of(header.color_type, header.bit_depth);
        let bands = match layout(width, height, bits, header.interlace) {
            Some(bands) => bands,
            None => return Err(DecoderError::DataLength),
        };
        let raster = unfilter(data, &bands, step_of(header.color_type, header.bit_depth))?;
        Ok(
            Frame {
                width,
                height,
                color_type: header.color_type,
                bit_depth: header.bit_depth,
                interlace: header.interlace,
                control,
                data: raster,
            },
        )
    }

    /// The image data that the frame is written as, before packing. A
    /// frame whose data is not as long as its rows is refused with
    /// `DataLength`.
    pub fn to_data(&self) -> (r: Result<Vec<u8>, EncoderError>)
        ensures
            match self@.pack() {
                Some(data) => r is Ok && r->Ok_0@ == data,
                None => r == Err::<Vec<u8>, EncoderError>(EncoderError::DataLength),
            },
    {
        let bits: u16 = bits_of(self.color_type, self.bit_depth);
        let bands = match layout(self.width, self.height, bits, self.interlace) {
            Some(bands) => bands,
            None => return Err(EncoderError::DataLength),
        };
        match filter(self.data.as_slice(), &bands) {
            Some(data) => Ok(data),
            None => Err(EncoderError::DataLength),
        }
    }

    /// The header of a file whose picture the frame is.
    pub fn header(&self) -> (header: ImageHeader)
        ensures
            header == self@.header(),
    {
        ImageHeader {
            width: self.width,
            height: self.height,
            color_type: self.color_type,
            bit_depth: self.bit_depth,
            interlace: self.interlace,
        }
    }
}

} // verus!
