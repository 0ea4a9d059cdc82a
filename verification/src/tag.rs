//! The registry of chunk types: what a four-byte type tag names, and the
//! four flags that the case of its letters carries.

use vstd::prelude::*;
use crate::consts::{
    ANIMATION_CONTROL, FRAME_CONTROL, FRAME_DATA, IMAGE_DATA, IMAGE_END, IMAGE_HEADER, PALETTE,
    PHYSICAL,
};

verus! {

/// The record that a type tag names.
#[derive(Clone, Copy, Debug, PartialEq, Eq, Structural)]
pub enum ChunkKind {
    ImageHeader,
    Palette,
    ImageData,
    ImageEnd,
    Physical,
    AnimationControl,
    FrameControl,
    FrameData,
    /// No record of the catalog.
    Unknown,
}

/// The record that `tag` names.
pub open spec fn kind_of(tag: Seq<u8>) -> ChunkKind {
    if tag == IMAGE_HEADER@ {
        ChunkKind::ImageHeader
    } else if tag == PALETTE@ {
        ChunkKind::Palette
    } else if tag == IMAGE_DATA@ {
        ChunkKind::ImageData
    } else if tag == IMAGE_END@ {
        ChunkKind::ImageEnd
    } else if tag == PHYSICAL@ {
        ChunkKind::Physical
    } else if tag == ANIMATION_CONTROL@ {
        ChunkKind::AnimationControl
    } else if tag == FRAME_CONTROL@ {
        ChunkKind::FrameControl
    } else if tag == FRAME_DATA@ {
        ChunkKind::FrameData
    } else {
        ChunkKind::Unknown
    }
}

/// Bit 5 of letter `at` of the tag is set: the letter is lower case.
pub open spec fn lower_case(tag: Seq<u8>, at: int) -> bool {
    tag[at] & 0x20 == 0x20
}

/// A decoder that does not know the chunk may pass it over.
pub open spec fn ancillary(tag: Seq<u8>) -> bool {
    lower_case(tag, 0)
}

/// The chunk type is not part of the public format.
pub open spec fn private(tag: Seq<u8>) -> bool {
    lower_case(tag, 1)
}

/// The reserved bit is set.
pub open spec fn reserved(tag: Seq<u8>) -> bool {
    lower_case(tag, 2)
}

/// An editor that does not know the chunk may copy it to a changed file.
pub open spec fn safe_to_copy(tag: Seq<u8>) -> bool {
    lower_case(tag, 3)
}

/// Each tag of the catalog names its own record.
pub proof fn lemma_catalog()
    ensures
        kind_of(IMAGE_HEADER@) == ChunkKind::ImageHeader,
        kind_of(PALETTE@) == ChunkKind::Palette,
        kind_of(IMAGE_DATA@) == ChunkKind::ImageData,
        kind_of(IMAGE_END@) == ChunkKind::ImageEnd,
        kind_of(PHYSICAL@) == ChunkKind::Physical,
        kind_of(ANIMATION_CONTROL@) == ChunkKind::AnimationControl,
        kind_of(FRAME_CONTROL@) == ChunkKind::FrameControl,
        kind_of(FRAME_DATA@) == ChunkKind::FrameData,
{
    assert(PALETTE@[0] != IMAGE_HEADER@[0]);
    assert(IMAGE_DATA@[1] != IMAGE_HEADER@[1]);
    assert(IMAGE_DATA@[0] != PALETTE@[0]);
    assert(IMAGE_END@[1] != IMAGE_HEADER@[1]);
    assert(IMAGE_END@[0] != PALETTE@[0]);
    assert(IMAGE_END@[1] != IMAGE_DATA@[1]);
    assert(PHYSICAL@[0] == 112);
    assert(ANIMATION_CONTROL@[0] == 97);
    assert(FRAME_CONTROL@[0] == 102);
    assert(FRAME_DATA@[0] == 102);
    assert(FRAME_DATA@[1] != FRAME_CONTROL@[1]);
    assert(IMAGE_HEADER@[0] == 73 && PALETTE@[0] == 80);
}

/// Whether two tags are the same four bytes.
pub fn same_tag(a: &[u8; 4], b: &[u8; 4]) -> (r: bool)
    ensures
        r == (a@ == b@),
{
    let r = a[0] == b[0] && a[1] == b[1] && a[2] == b[2] && a[3] == b[3];
    proof {
        if r {
            assert(a@ =~= b@);
        }
    }
    r
}

/// Looks `tag` up in the catalog.
pub fn lookup(tag: &[u8; 4]) -> (kind: ChunkKind)
    ensures
        kind == kind_of(tag@),
{
    if same_tag(tag, &IMAGE_HEADER) {
        ChunkKind::ImageHeader
    } else if same_tag(tag, &PALETTE) {
        ChunkKind::Palette
    } else if same_tag(tag, &IMAGE_DATA) {
        ChunkKind::ImageData
    } else if same_tag(tag, &IMAGE_END) {
        ChunkKind::ImageEnd
    } else if same_tag(tag, &PHYSICAL) {
        ChunkKind::Physical
    } else if same_tag(tag, &ANIMATION_CONTROL) {
        ChunkKind::AnimationControl
    } else if same_tag(tag, &FRAME_CONTROL) {
        ChunkKind::FrameControl
    } else if same_tag(tag, &FRAME_DATA) {
        ChunkKind::FrameData
    } else {
        ChunkKind::Unknown
    }
}

/// Whether a decoder that does not know the chunk may pass it over.
pub fn is_ancillary(tag: &[u8; 4]) -> (r: bool)
    ensures
        r == ancillary(tag@),
{
    tag[0] & 0x20 == 0x20
}

/// Whether the chunk type is outside the public format.
pub fn is_private(tag: &[u8; 4]) -> (r: bool)
    ensures
        r == private(tag@),
{
    tag[1] & 0x20 == 0x20
}

/// Whether the reserved bit is set.
pub fn is_reserved(tag: &[u8; 4]) -> (r: bool)
    ensures
        r == reserved(tag@),
{
    tag[2] & 0x20 == 0x20
}

/// Whether an editor that does not know the chunk may copy it.
pub fn is_safe_to_copy(tag: &[u8; 4]) -> (r: bool)
    ensures
        r == safe_to_copy(tag@),
{
    tag[3] & 0x20 == 0x20
}

} // verus!
