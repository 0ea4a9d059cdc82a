//! The typed failures of decoding and encoding.

use vstd::prelude::*;

verus! {

/// Why a byte stream was refused.
#[derive(Clone, Copy, Debug, PartialEq, Eq, Structural)]
pub enum DecoderError {
    /// The stream does not begin with the file signature.
    Signature,
    /// The stream stops inside the signature or inside a chunk.
    Eof,
    /// A chunk's stored checksum is not the CRC-32 of its tag and payload.
    Checksum,
    /// A chunk's declared length is not the length that its layout has.
    ChunkLength,
    /// The header record holds a value outside its domain.
    HeaderField,
    /// The unit flag of the physical dimensions is neither 0 nor 1.
    PhysUnits,
    /// A frame control record names an unknown dispose or blend operation.
    FrameControlField,
    /// A chunk of unknown type is marked critical.
    UnknownCritical,
    /// The image data is not a complete zlib stream.
    Zlib,
    /// The unpacked image data is not as long as the rows of the picture.
    DataLength,
    /// A row of the image data names an unknown filter.
    FilterType,
    /// A chunk stands where the format does not allow it.
    Order,
}

/// Why a document was not written.
#[derive(Clone, Copy, Debug, PartialEq, Eq, Structural)]
pub enum EncoderError {
    /// The compression level is above the highest one.
    Level,
    /// The limit on the payload of an image data chunk is zero or above
    /// what a chunk may carry.
    ChunkLimit,
    /// A record's payload is longer than a chunk may carry, or an
    /// animation has more chunks than a sequence number can count.
    TooLong,
    /// The data of a frame is not as long as the rows of the frame.
    DataLength,
    /// A frame is given where none can be written: a second frame without
    /// an animation, or a later frame without its control record.
    Order,
}

} // verus!
