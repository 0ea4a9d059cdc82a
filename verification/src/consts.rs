//! Fixed byte strings of the container format.

use vstd::prelude::*;

verus! {

/// The eight bytes that open every file.
pub const SIGNATURE: [u8; 8] = [137, 80, 78, 71, 13, 10, 26, 10];

/// `IHDR`, the header record.
pub const IMAGE_HEADER: [u8; 4] = [73, 72, 68, 82];

/// `PLTE`, the palette.
pub const PALETTE: [u8; 4] = [80, 76, 84, 69];

/// `IDAT`, a slice of the compressed image data.
pub const IMAGE_DATA: [u8; 4] = [73, 68, 65, 84];

/// `IEND`, the end marker.
pub const IMAGE_END: [u8; 4] = [73, 69, 78, 68];

/// `pHYs`, the physical pixel dimensions.
pub const PHYSICAL: [u8; 4] = [112, 72, 89, 115];

/// `acTL`, the animation control record.
pub const ANIMATION_CONTROL: [u8; 4] = [97, 99, 84, 76];

/// `fcTL`, the frame control record.
pub const FRAME_CONTROL: [u8; 4] = [102, 99, 84, 76];

/// `fdAT`, a slice of the compressed data of a later frame.
pub const FRAME_DATA: [u8; 4] = [102, 100, 65, 84];

/// Largest payload that one chunk may carry.
pub const MAX_CHUNK: u32 = 0x7FFF_FFFF;

} // verus!
