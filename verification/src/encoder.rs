//! The writer side of the framing layer: it lays chunks out in a byte
//! buffer, each with its length, type tag, payload and checksum.

use vstd::prelude::*;
use crate::checksum::{checksum, crc32};
use crate::consts::{FRAME_DATA, IMAGE_DATA, SIGNATURE};
use crate::wire::{be16, be32, frame, put_u16, put_u32};

verus! {

/// What an [`Enc`] stands for.
pub struct EncView {
    /// Everything written so far.
    pub bytes: Seq<u8>,
    /// A chunk was begun and its checksum is not written yet.
    pub open: bool,
    /// Where in `bytes` the chunk in hand begins; 0 where none is.
    pub start: int,
    /// How many bytes of payload the chunk in hand still lacks; 0 where
    /// none is.
    pub room: nat,
    /// The most payload that one image data chunk gets.
    pub limit: u32,
}

impl EncView {
    /// The state between chunks: `bytes` written, no chunk in hand.
    pub open spec fn idle(bytes: Seq<u8>, limit: u32) -> EncView {
        EncView { bytes, open: false, start: 0, room: 0, limit }
    }
}

/// A byte buffer that chunks are written to.
pub struct Enc {
    /// What is settled: every finished chunk, and the length of the one in
    /// hand.
    out: Vec<u8>,
    /// Type tag and payload of the chunk in hand, which its checksum will
    /// cover.
    pending: Vec<u8>,
    open: bool,
    room: u32,
    limit: u32,
}

/// The chunks that carry `stream` under type `tag`, none with more than
/// `limit` bytes of payload: as many full ones as fit, then one with the
/// rest. An empty stream still gets one chunk.
pub open spec fn data_frames(tag: Seq<u8>, stream: Seq<u8>, limit: int) -> Seq<u8>
    decreases stream.len(),
{
    if limit <= 0 || stream.len() <= limit {
        frame(tag, stream)
    } else {
        frame(tag, stream.take(limit)) + data_frames(tag, stream.skip(limit), limit)
    }
}

/// The chunks that carry `stream` as frame data, none with more than
/// `limit` bytes of it: each begins with its sequence number, and the
/// numbers count up from `sequence`.
pub open spec fn sequence_frames(stream: Seq<u8>, limit: int, sequence: int) -> Seq<u8>
    decreases stream.len(),
{
    if limit <= 0 || stream.len() <= limit {
        frame(FRAME_DATA@, be32(sequence as u32) + stream)
    } else {
        frame(FRAME_DATA@, be32(sequence as u32) + stream.take(limit)) + sequence_frames(
            stream.skip(limit),
            limit,
            sequence + 1,
        )
    }
}

/// How many chunks carry a stream of `len` bytes under `limit`.
pub open spec fn pieces(len: int, limit: int) -> int
    decreases len,
{
    if limit <= 0 || len <= limit {
        1
    } else {
        1 + pieces(len - limit, limit)
    }
}

/// A chunk written piece by piece is the chunk written whole: after
/// `before` come the length, the tag, the payload, and the checksum of all
/// that follows the length.
pub proof fn lemma_chunk_written(before: Seq<u8>, tag: Seq<u8>, payload: Seq<u8>)
    requires
        tag.len() == 4,
        payload.len() <= u32::MAX,
    ensures
        ({
            let body = before + be32(payload.len() as u32) + tag + payload;
            body + be32(crc32(body.skip(before.len() as int + 4))) == before + frame(tag, payload)
        }),
{
    let body = before + be32(payload.len() as u32) + tag + payload;
    assert(body.skip(before.len() as int + 4) =~= tag + payload);
    assert(body + be32(crc32(tag + payload)) =~= before + frame(tag, payload));
}

impl View for Enc {
    type V = EncView;

    closed spec fn view(&self) -> EncView {
        EncView {
            bytes: self.out@ + self.pending@,
            open: self.open,
            start: if self.open {
                self.out@.len() - 4
            } else {
                0
            },
            room: if self.open {
                self.room as nat
            } else {
                0
            },
            limit: self.limit,
        }
    }
}

impl Enc {
    /// An empty buffer. `limit` is the most payload that one image data
    /// chunk gets.
    pub fn new(limit: u32) -> (enc: Enc)
        ensures
            enc@ == EncView::idle(Seq::<u8>::empty(), limit),
    {
        let enc = Enc { out: Vec::new(), pending: Vec::new(), open: false, room: 0, limit };
        assert(enc@.bytes =~= Seq::<u8>::empty());
        enc
    }

    /// The most payload that one image data chunk gets.
    pub fn limit(&self) -> (limit: u32)
        ensures
            limit == self@.limit,
    {
        self.limit
    }

    /// Gives the buffer up.
    pub fn finish(self) -> (bytes: Vec<u8>)
        ensures
            bytes@ == self@.bytes,
    {
        let mut out = self.out;
        let mut pending = self.pending;
        out.append(&mut pending);
        out
    }

    /// Writes the file signature.
    pub fn signature(&mut self)
        requires
            !old(self)@.open,
        ensures
            final(self)@ == EncView::idle(old(self)@.bytes + SIGNATURE@, old(self)@.limit),
    {
        self.out.append(&mut self.pending);
        let mut i: usize = 0;
        while i < 8
            invariant
                0 <= i <= 8,
                self.open == old(self).open,
                self.room == old(self).room,
                self.limit == old(self).limit,
                self.pending@.len() == 0,
                self.out@ == old(self)@.bytes + SIGNATURE@.take(i as int),
            decreases 8 - i,
        {
            self.out.push(SIGNATURE[i]);
            assert(self.out@ =~= old(self)@.bytes + SIGNATURE@.take(i + 1));
            i = i + 1;
        }
        assert(SIGNATURE@.take(8) =~= SIGNATURE@);
        assert(self@.bytes =~= old(self)@.bytes + SIGNATURE@);
    }

    /// Begins a chunk of type `tag` whose payload will be `len` bytes.
    pub fn prepare(&mut self, len: u32, tag: [u8; 4])
        requires
            !old(self)@.open,
        ensures
            final(self)@ == (EncView {
                bytes: old(self)@.bytes + be32(len) + tag@,
                open: true,
                start: old(self)@.bytes.len() as int,
                room: len as nat,
                limit: old(self)@.limit,
            }),
    {
        self.out.append(&mut self.pending);
        put_u32(&mut self.out, len);
        self.pending.push(tag[0]);
        self.pending.push(tag[1]);
        self.pending.push(tag[2]);
        self.pending.push(tag[3]);
        self.open = true;
        self.room = len;
        assert(self.pending@ =~= tag@);
        assert(self@.bytes =~= old(self)@.bytes + be32(len) + tag@);
    }

    /// Writes one byte of payload.
    pub fn u8(&mut self, v: u8)
        requires
            old(self)@.open,
            old(self)@.room >= 1,
        ensures
            final(self)@ == (EncView {
                bytes: old(self)@.bytes.push(v),
                room: (old(self)@.room - 1) as nat,
                ..old(self)@
            }),
    {
        self.pending.push(v);
        self.room = self.room - 1;
        assert(self@.bytes =~= old(self)@.bytes.push(v));
    }

    /// Writes a number as two bytes of payload, most significant first.
    pub fn u16(&mut self, v: u16)
        requires
            old(self)@.open,
            old(self)@.room >= 2,
        ensures
            final(self)@ == (EncView {
                bytes: old(self)@.bytes + be16(v),
                room: (old(self)@.room - 2) as nat,
                ..old(self)@
            }),
    {
        put_u16(&mut self.pending, v);
        self.room = self.room - 2;
        assert(self@.bytes =~= old(self)@.bytes + be16(v));
    }

    /// Writes a number as four bytes of payload, most significant first.
    pub fn u32(&mut self, v: u32)
        requires
            old(self)@.open,
            old(self)@.room >= 4,
        ensures
            final(self)@ == (EncView {
                bytes: old(self)@.bytes + be32(v),
                room: (old(self)@.room - 4) as nat,
                ..old(self)@
            }),
    {
        put_u32(&mut self.pending, v);
        self.room = self.room - 4;
        assert(self@.bytes =~= old(self)@.bytes + be32(v));
    }

    /// Writes `data[from..to]` as payload.
    pub fn raw(&mut self, data: &[u8], from: usize, to: usize)
        requires
            old(self)@.open,
            from <= to <= data@.len(),
            old(self)@.room >= to - from,
        ensures
            final(self)@ == (EncView {
                bytes: old(self)@.bytes + data@.subrange(from as int, to as int),
                room: (old(self)@.room - (to - from)) as nat,
                ..old(self)@
            }),
    {
        let mut i: usize = from;
        while i < to
            invariant
                from <= i <= to <= data@.len(),
                self.open == old(self).open,
                self.limit == old(self).limit,
                self.out == old(self).out,
                self.open,
                self.room == old(self).room - (i - from),
                old(self).room >= to - from,
                self.pending@ == old(self).pending@ + data@.subrange(from as int, i as int),
            decreases to - i,
        {
            self.pending.push(data[i]);
            self.room = self.room - 1;
            assert(self.pending@ =~= old(self).pending@ + data@.subrange(from as int, i + 1));
            i = i + 1;
        }
        assert(self@.bytes =~= old(self)@.bytes + data@.subrange(from as int, to as int));
    }

    /// Ends the chunk in hand with the CRC-32 of its type tag and payload.
    pub fn write_crc(&mut self)
        requires
            old(self)@.open,
            old(self)@.room == 0,
        ensures
            final(self)@ == EncView::idle(
                old(self)@.bytes + be32(crc32(old(self)@.bytes.skip(old(self)@.start + 4))),
                old(self)@.limit,
            ),
    {
        let total: usize = self.pending.len();
        let crc: u32 = checksum(self.pending.as_slice(), 0, total);
        assert(self.pending@.subrange(0, total as int) =~= self.pending@);
        assert(old(self)@.bytes.skip(old(self)@.start + 4) =~= self.pending@);
        self.out.append(&mut self.pending);
        put_u32(&mut self.out, crc);
        self.open = false;
        assert(self@.bytes =~= old(self)@.bytes + be32(crc));
    }

    /// Writes one whole chunk of type `tag` with `data[from..to]` as its
    /// payload.
    pub fn chunk(&mut self, tag: [u8; 4], data: &[u8], from: usize, to: usize)
        requires
            !old(self)@.open,
            from <= to <= data@.len(),
            to - from <= u32::MAX,
        ensures
            final(self)@ == EncView::idle(
                old(self)@.bytes + frame(tag@, data@.subrange(from as int, to as int)),
                old(self)@.limit,
            ),
    {
        let ghost before = self@;
        let ghost payload = data@.subrange(from as int, to as int);
        self.prepare((to - from) as u32, tag);
        self.raw(data, from, to);
        assert(self@.bytes.skip(before.bytes.len() as int + 4) =~= tag@ + payload);
        self.write_crc();
        assert(self@.bytes =~= before.bytes + frame(tag@, payload));
    }

    /// Writes `stream` as image data: chunk after chunk of `limit` bytes of
    /// payload while more than that is left, then one chunk with the rest.
    pub fn image_data(&mut self, stream: &[u8])
        requires
            !old(self)@.open,
            old(self)@.limit >= 1,
        ensures
            final(self)@ == EncView::idle(
                old(self)@.bytes + data_frames(IMAGE_DATA@, stream@, old(self)@.limit as int),
                old(self)@.limit,
            ),
    {
        let limit: usize = self.limit as usize;
        let total: usize = stream.len();
        let mut at: usize = 0;
        assert(stream@.skip(0) =~= stream@);
        while total - at > limit
            invariant
                0 <= at <= total == stream@.len(),
                limit == old(self)@.limit >= 1,
                self@.open == old(self)@.open,
                self@.limit == old(self)@.limit,
                !self@.open,
                self@.start == 0,
                self@.room == 0,
                old(self)@.bytes + data_frames(IMAGE_DATA@, stream@, limit as int) == self@.bytes
                    + data_frames(IMAGE_DATA@, stream@.skip(at as int), limit as int),
            decreases total - at,
        {
            let ghost rest = stream@.skip(at as int);
            assert(rest.take(limit as int) =~= stream@.subrange(at as int, at + limit));
            assert(rest.skip(limit as int) =~= stream@.skip(at + limit));
            self.chunk(IMAGE_DATA, stream, at, at + limit);
            at = at + limit;
        }
        assert(stream@.skip(at as int) =~= stream@.subrange(at as int, total as int));
        self.chunk(IMAGE_DATA, stream, at, total);
    }

    /// Writes one frame data chunk: the sequence number `number`, then
    /// `data[from..to]`.
    pub fn sequence_chunk(&mut self, number: u32, data: &[u8], from: usize, to: usize)
        requires
            !old(self)@.open,
            from <= to <= data@.len(),
            to - from + 4 <= u32::MAX,
        ensures
            final(self)@ == EncView::idle(
                old(self)@.bytes + frame(
                    FRAME_DATA@,
                    be32(number) + data@.subrange(from as int, to as int),
                ),
                old(self)@.limit,
            ),
    {
        let ghost before = self@.bytes;
        let ghost payload = be32(number) + data@.subrange(from as int, to as int);
        self.prepare((to - from + 4) as u32, FRAME_DATA);
        self.u32(number);
        self.raw(data, from, to);
        proof {
            lemma_chunk_written(before, FRAME_DATA@, payload);
            assert(self@.bytes =~= before + be32((to - from + 4) as u32) + FRAME_DATA@ + payload);
        }
        self.write_crc();
    }

    /// Writes `stream` as frame data: chunk after chunk of `limit` bytes of
    /// it while more than that is left, then one chunk with the rest, each
    /// behind its sequence number. The numbers count up from `sequence`;
    /// the one after the last is returned, or, where the numbers run out,
    /// `None`, and nothing is written.
    pub fn frame_data(&mut self, stream: &[u8], sequence: u32) -> (next: Option<u32>)
        requires
            !old(self)@.open,
            1 <= old(self)@.limit <= 0x7FFF_FFFF,
        ensures
            match next {
                Some(n) => n == sequence + pieces(stream@.len() as int, old(self)@.limit as int)
                    && final(self)@ == EncView::idle(
                    old(self)@.bytes + sequence_frames(
                        stream@,
                        old(self)@.limit as int,
                        sequence as int,
                    ),
                    old(self)@.limit,
                ),
                None => sequence + pieces(stream@.len() as int, old(self)@.limit as int)
                    > u32::MAX && final(self)@ == old(self)@,
            },
    {
        let limit: usize = self.limit as usize;
        let total: usize = stream.len();
        let count: usize = if total == 0 {
            1
        } else {
            (total - 1) / limit + 1
        };
        proof {
            lemma_pieces(total as int, limit as int);
        }
        if count > (u32::MAX - sequence) as usize {
            return None;
        }
        let mut at: usize = 0;
        let mut number: u32 = sequence;
        assert(stream@.skip(0) =~= stream@);
        while total - at > limit
            invariant
                0 <= at <= total == stream@.len(),
                limit == old(self)@.limit >= 1,
                limit <= 0x7FFF_FFFF,
                self@.limit == old(self)@.limit,
                !self@.open,
                self@.start == 0,
                self@.room == 0,
                number + pieces(total - at, limit as int) == sequence + pieces(
                    total as int,
                    limit as int,
                ) <= u32::MAX,
                old(self)@.bytes + sequence_frames(stream@, limit as int, sequence as int)
                    == self@.bytes + sequence_frames(
                    stream@.skip(at as int),
                    limit as int,
                    number as int,
                ),
            decreases total - at,
        {
            let ghost rest = stream@.skip(at as int);
            assert(rest.take(limit as int) =~= stream@.subrange(at as int, at + limit));
            assert(rest.skip(limit as int) =~= stream@.skip(at + limit));
            proof {
                lemma_pieces(total - at - limit, limit as int);
                assert(pieces(total - at, limit as int) == 1 + pieces(
                    total - at - limit,
                    limit as int,
                ));
            }
            self.sequence_chunk(number, stream, at, at + limit);
            at = at + limit;
            number = number + 1;
        }
        assert(stream@.skip(at as int) =~= stream@.subrange(at as int, total as int));
        self.sequence_chunk(number, stream, at, total);
        Some(number + 1)
    }
}

/// A stream of `len` bytes takes one chunk for every `limit` bytes, and
/// one for what is left.
pub proof fn lemma_pieces(len: int, limit: int)
    requires
        len >= 0,
        limit >= 1,
    ensures
        pieces(len, limit) == (if len == 0 {
            1
        } else {
            (len - 1) / limit + 1
        }),
    decreases len,
{
    if len > limit {
        lemma_pieces(len - limit, limit);
        assert((len - 1) / limit == (len - limit - 1) / limit + 1) by (nonlinear_arith)
            requires
                limit >= 1,
                len > limit,
        ;
    } else if len > 0 {
        assert((len - 1) / limit == 0) by (nonlinear_arith)
            requires
                limit >= 1,
                0 < len <= limit,
        ;
    }
}

} // verus!
