//! The byte layout of integers and of chunks on the wire.

use vstd::prelude::*;
use crate::checksum::crc32;
use crate::error::DecoderError;

verus! {

/// The two bytes of `v`, most significant first.
pub open spec fn be16(v: u16) -> Seq<u8> {
    seq![(v / 0x100) as u8, (v % 0x100) as u8]
}

/// The four bytes of `v`, most significant first.
pub open spec fn be32(v: u32) -> Seq<u8> {
    seq![
        (v / 0x100_0000) as u8,
        ((v / 0x1_0000) % 0x100) as u8,
        ((v / 0x100) % 0x100) as u8,
        (v % 0x100) as u8,
    ]
}

/// The number that the first two bytes of `s` spell, most significant first.
pub open spec fn word16(s: Seq<u8>) -> u16 {
    (s[0] * 0x100 + s[1]) as u16
}

/// The number that the first four bytes of `s` spell, most significant
/// first.
pub open spec fn word32(s: Seq<u8>) -> u32 {
    (s[0] * 0x100_0000 + s[1] * 0x1_0000 + s[2] * 0x100 + s[3]) as u32
}

/// A chunk as it is framed: its type tag and its payload.
pub struct RawChunk {
    pub tag: Seq<u8>,
    pub payload: Seq<u8>,
}

/// The bytes of one chunk: length, tag, payload, and the CRC-32 of tag and
/// payload.
pub open spec fn frame(tag: Seq<u8>, payload: Seq<u8>) -> Seq<u8> {
    be32(payload.len() as u32) + tag + payload + be32(crc32(tag + payload))
}

/// The chunk that `s` begins with.
pub open spec fn read_frame(s: Seq<u8>) -> Result<RawChunk, DecoderError> {
    if s.len() < 8 {
        Err(DecoderError::Eof)
    } else {
        let len = word32(s) as int;
        if s.len() < len + 12 {
            Err(DecoderError::Eof)
        } else if word32(s.skip(len + 8)) != crc32(s.subrange(4, len + 8)) {
            Err(DecoderError::Checksum)
        } else {
            Ok(RawChunk { tag: s.subrange(4, 8), payload: s.subrange(8, len + 8) })
        }
    }
}

/// The two bytes of a number spell the number.
pub proof fn lemma_word16_be16(v: u16)
    ensures
        be16(v).len() == 2,
        word16(be16(v)) == v,
{
}

/// The four bytes of a number spell the number.
pub proof fn lemma_word32_be32(v: u32)
    ensures
        be32(v).len() == 4,
        word32(be32(v)) == v,
{
}

/// Four bytes are the four digits to base 256 of the number they spell.
proof fn lemma_digits(a: u8, b: u8, c: u8, d: u8)
    by (bit_vector)
    ensures
        a * 0x100_0000 + b * 0x1_0000 + c * 0x100 + d < 0x1_0000_0000,
        (a * 0x100_0000 + b * 0x1_0000 + c * 0x100 + d) / 0x100_0000 == a,
        ((a * 0x100_0000 + b * 0x1_0000 + c * 0x100 + d) / 0x1_0000) % 0x100 == b,
        ((a * 0x100_0000 + b * 0x1_0000 + c * 0x100 + d) / 0x100) % 0x100 == c,
        (a * 0x100_0000 + b * 0x1_0000 + c * 0x100 + d) % 0x100 == d,
{
}

/// The number that two bytes spell has those two bytes.
pub proof fn lemma_be16_word16(s: Seq<u8>)
    requires
        s.len() >= 2,
    ensures
        be16(word16(s)) == s.take(2),
{
    assert(be16(word16(s)) =~= s.take(2));
}

/// The number that four bytes spell has those four bytes.
pub proof fn lemma_be32_word32(s: Seq<u8>)
    requires
        s.len() >= 4,
    ensures
        be32(word32(s)) == s.take(4),
{
    lemma_digits(s[0], s[1], s[2], s[3]);
    assert(be32(word32(s)) =~= s.take(4));
}

/// A framed chunk followed by anything reads back as that chunk.
pub proof fn lemma_read_frame(tag: Seq<u8>, payload: Seq<u8>, rest: Seq<u8>)
    requires
        tag.len() == 4,
        payload.len() <= u32::MAX,
    ensures
        frame(tag, payload).len() == payload.len() + 12,
        read_frame(frame(tag, payload) + rest) == Ok::<RawChunk, DecoderError>(
            RawChunk { tag, payload },
        ),
        (frame(tag, payload) + rest).skip(payload.len() as int + 12) == rest,
{
    let len = payload.len() as int;
    let s = frame(tag, payload) + rest;
    lemma_word32_be32(len as u32);
    lemma_word32_be32(crc32(tag + payload));
    assert(s.subrange(4, 8) =~= tag);
    assert(s.subrange(8, len + 8) =~= payload);
    assert(s.subrange(4, len + 8) =~= tag + payload);
    assert(s.skip(len + 12) =~= rest);
    assert(word32(s) == len as u32);
    assert(word32(s.skip(len + 8)) == word32(be32(crc32(tag + payload))));
}

/// The number spelled by `data[at..at + 2]`.
pub fn get_u16(data: &[u8], at: usize) -> (v: u16)
    requires
        at + 2 <= data@.len(),
    ensures
        v == word16(data@.skip(at as int)),
{
    (data[at] as u16) * 0x100 + (data[at + 1] as u16)
}

/// The number spelled by `data[at..at + 4]`.
pub fn get_u32(data: &[u8], at: usize) -> (v: u32)
    requires
        at + 4 <= data@.len(),
    ensures
        v == word32(data@.skip(at as int)),
{
    (data[at] as u32) * 0x100_0000 + (data[at + 1] as u32) * 0x1_0000 + (data[at + 2] as u32)
        * 0x100 + (data[at + 3] as u32)
}

/// Appends the two bytes of `v`.
pub fn put_u16(out: &mut Vec<u8>, v: u16)
    ensures
        final(out)@ == old(out)@ + be16(v),
{
    out.push((v / 0x100) as u8);
    out.push((v % 0x100) as u8);
    assert(out@ =~= old(out)@ + be16(v));
}

/// Appends the four bytes of `v`.
pub fn put_u32(out: &mut Vec<u8>, v: u32)
    ensures
        final(out)@ == old(out)@ + be32(v),
{
    out.push((v / 0x100_0000) as u8);
    out.push(((v / 0x1_0000) % 0x100) as u8);
    out.push(((v / 0x100) % 0x100) as u8);
    out.push((v % 0x100) as u8);
    assert(out@ =~= old(out)@ + be32(v));
}

} // verus!
