//! The reader side of the framing layer: it walks a byte stream chunk by
//! chunk, checks each chunk's checksum, and hands out the payload of the
//! chunk in hand through reads that cannot leave it.

use vstd::prelude::*;
use vstd::slice::{slice_subrange, slice_to_vec};
use crate::checksum::{checksum, crc32};
use crate::consts::SIGNATURE;
use crate::error::DecoderError;
use crate::wire::{get_u16, get_u32, read_frame, word16, word32};

verus! {

/// What a [`Parser`] stands for.
pub struct ParserView {
    /// A chunk is in hand.
    pub open: bool,
    /// What is left to read of the payload of the chunk in hand.
    pub remaining: Seq<u8>,
    /// What follows the chunk in hand, or the cursor where none is.
    pub upcoming: Seq<u8>,
    /// The checksum of the chunk in hand.
    pub checksum: u32,
}

impl ParserView {
    /// The same chunk is in hand as in `other`, with the same bytes after
    /// it.
    pub open spec fn same_chunk(self, other: ParserView) -> bool {
        &&& self.open == other.open
        &&& self.upcoming == other.upcoming
        &&& self.checksum == other.checksum
    }
}

/// A cursor over the bytes of a file.
#[derive(Clone, Copy)]
pub struct Parser<'a> {
    data: &'a [u8],
    pos: usize,
    end: usize,
    open: bool,
    crc: u32,
}

/// The signature that `s` must begin with.
pub open spec fn read_signature(s: Seq<u8>) -> Result<(), DecoderError> {
    if s.len() < 8 {
        Err(DecoderError::Eof)
    } else if s.take(8) != SIGNATURE@ {
        Err(DecoderError::Signature)
    } else {
        Ok(())
    }
}

/// Whether `data[at..at + 8]` is the file signature.
fn starts_with_signature(data: &[u8], at: usize) -> (r: bool)
    requires
        at + 8 <= data@.len(),
    ensures
        r == (data@.skip(at as int).take(8) == SIGNATURE@),
{
    let ghost s = data@.skip(at as int).take(8);
    let total: usize = data.len();
    let mut i: usize = 0;
    while i < 8
        invariant
            0 <= i <= 8,
            at + 8 <= data@.len() == total,
            s == data@.skip(at as int).take(8),
            forall|j: int| 0 <= j < i ==> s[j] == SIGNATURE@[j],
        decreases 8 - i,
    {
        if data[at + i] != SIGNATURE[i] {
            assert(s[i as int] != SIGNATURE@[i as int]);
            return false;
        }
        i = i + 1;
    }
    assert(s =~= SIGNATURE@);
    true
}

impl<'a> View for Parser<'a> {
    type V = ParserView;

    closed spec fn view(&self) -> ParserView {
        ParserView {
            open: self.open,
            remaining: self.data@.subrange(self.pos as int, self.end as int),
            upcoming: self.data@.skip(
                if self.open {
                    self.end + 4
                } else {
                    self.pos as int
                },
            ),
            checksum: self.crc,
        }
    }
}

impl<'a> Parser<'a> {
    #[verifier::type_invariant]
    spec fn inv(self) -> bool {
        &&& self.pos <= self.end <= self.data@.len()
        &&& self.open ==> self.end + 4 <= self.data@.len()
        &&& !self.open ==> self.pos == self.end
    }

    /// A cursor at the first byte of `data`, with no chunk in hand.
    pub fn new(data: &'a [u8]) -> (parser: Parser<'a>)
        ensures
            parser@ == (ParserView {
                open: false,
                remaining: Seq::<u8>::empty(),
                upcoming: data@,
                checksum: 0,
            }),
    {
        let parser = Parser { data, pos: 0, end: 0, open: false, crc: 0 };
        assert(parser@.remaining =~= Seq::<u8>::empty());
        assert(parser@.upcoming =~= data@);
        parser
    }

    /// Whether nothing follows the chunk in hand.
    pub fn is_done(&self) -> (done: bool)
        ensures
            done == (self@.upcoming.len() == 0),
    {
        proof {
            use_type_invariant(self);
        }
        if self.open {
            self.data.len() - self.end == 4
        } else {
            self.pos == self.data.len()
        }
    }

    /// Whether a chunk is in hand.
    pub fn is_open(&self) -> (open: bool)
        ensures
            open == self@.open,
    {
        self.open
    }

    /// How many bytes of the payload are left to read.
    pub fn len(&self) -> (n: usize)
        ensures
            n == self@.remaining.len(),
    {
        proof {
            use_type_invariant(self);
        }
        self.end - self.pos
    }

    /// Reads the file signature. Inside a chunk it fails with
    /// `ChunkLength`.
    pub fn signature(&mut self) -> (r: Result<(), DecoderError>)
        ensures
            old(self)@.open ==> r == Err::<(), DecoderError>(DecoderError::ChunkLength),
            !old(self)@.open ==> r == read_signature(old(self)@.upcoming),
            r is Ok ==> final(self)@ == (ParserView {
                upcoming: old(self)@.upcoming.skip(8),
                ..old(self)@
            }),
            r is Err ==> final(self)@ == old(self)@,
    {
        proof {
            use_type_invariant(&*self);
        }
        if self.open {
            return Err(DecoderError::ChunkLength);
        }
        if self.data.len() - self.pos < 8 {
            return Err(DecoderError::Eof);
        }
        if !starts_with_signature(self.data, self.pos) {
            return Err(DecoderError::Signature);
        }
        *self = Parser { data: self.data, pos: self.pos + 8, end: self.pos + 8, open: false, crc: self.crc };
        assert(self@.upcoming =~= old(self)@.upcoming.skip(8));
        assert(self@.remaining =~= old(self)@.remaining);
        Ok(())
    }

    /// Takes the next chunk in hand: reads its length and type tag, makes
    /// sure that its payload and checksum are there, and checks the
    /// checksum. Returns the type tag. While a chunk is in hand it fails
    /// with `ChunkLength`.
    pub fn prepare(&mut self) -> (r: Result<[u8; 4], DecoderError>)
        ensures
            old(self)@.open ==> r == Err::<[u8; 4], DecoderError>(DecoderError::ChunkLength),
            !old(self)@.open ==> match read_frame(old(self)@.upcoming) {
                Ok(raw) => r is Ok && r->Ok_0@ == raw.tag && final(self)@ == (ParserView {
                    open: true,
                    remaining: raw.payload,
                    upcoming: old(self)@.upcoming.skip(raw.payload.len() as int + 12),
                    checksum: crc32(raw.tag + raw.payload),
                }),
                Err(e) => r == Err::<[u8; 4], DecoderError>(e),
            },
            r is Err ==> final(self)@ == old(self)@,
    {
        proof {
            use_type_invariant(&*self);
        }
        if self.open {
            return Err(DecoderError::ChunkLength);
        }
        let ghost s = self.data@.skip(self.pos as int);
        let left: usize = self.data.len() - self.pos;
        if left < 12 {
            return Err(DecoderError::Eof);
        }
        let len: u32 = get_u32(self.data, self.pos);
        if left - 12 < len as usize {
            return Err(DecoderError::Eof);
        }
        let start: usize = self.pos + 8;
        let end: usize = start + len as usize;
        let stored: u32 = get_u32(self.data, end);
        let computed: u32 = checksum(self.data, self.pos + 4, end);
        proof {
            assert(s.skip(len + 8) =~= self.data@.skip(end as int));
            assert(s.subrange(4, len + 8) =~= self.data@.subrange(self.pos + 4, end as int));
            assert(s.subrange(4, len + 8) =~= s.subrange(4, 8) + s.subrange(8, len + 8));
        }
        if stored != computed {
            return Err(DecoderError::Checksum);
        }
        let tag: [u8; 4] = [
            self.data[self.pos + 4],
            self.data[self.pos + 5],
            self.data[self.pos + 6],
            self.data[self.pos + 7],
        ];
        assert(tag@ =~= s.subrange(4, 8));
        *self = Parser { data: self.data, pos: start, end, open: true, crc: computed };
        assert(self@.remaining =~= s.subrange(8, len + 8));
        assert(self@.upcoming =~= s.skip(len + 12));
        Ok(tag)
    }

    /// Reads one byte of the payload.
    pub fn u8(&mut self) -> (r: Result<u8, DecoderError>)
        ensures
            match r {
                Ok(v) => old(self)@.remaining.len() >= 1 && v == old(self)@.remaining[0]
                    && final(self)@ == (ParserView {
                    remaining: old(self)@.remaining.skip(1),
                    ..old(self)@
                }),
                Err(e) => e == DecoderError::ChunkLength && old(self)@.remaining.len() < 1
                    && final(self)@ == old(self)@,
            },
    {
        proof {
            use_type_invariant(&*self);
        }
        if self.end - self.pos < 1 {
            return Err(DecoderError::ChunkLength);
        }
        let v: u8 = self.data[self.pos];
        *self = Parser { data: self.data, pos: self.pos + 1, end: self.end, open: self.open, crc: self.crc };
        assert(self@.remaining =~= old(self)@.remaining.skip(1));
        Ok(v)
    }

    /// Reads two bytes of the payload as a number, most significant byte
    /// first.
    pub fn u16(&mut self) -> (r: Result<u16, DecoderError>)
        ensures
            match r {
                Ok(v) => old(self)@.remaining.len() >= 2 && v == word16(old(self)@.remaining)
                    && final(self)@ == (ParserView {
                    remaining: old(self)@.remaining.skip(2),
                    ..old(self)@
                }),
                Err(e) => e == DecoderError::ChunkLength && old(self)@.remaining.len() < 2
                    && final(self)@ == old(self)@,
            },
    {
        proof {
            use_type_invariant(&*self);
        }
        if self.end - self.pos < 2 {
            return Err(DecoderError::ChunkLength);
        }
        let v: u16 = get_u16(self.data, self.pos);
        *self = Parser { data: self.data, pos: self.pos + 2, end: self.end, open: self.open, crc: self.crc };
        assert(self@.remaining =~= old(self)@.remaining.skip(2));
        Ok(v)
    }

    /// Reads four bytes of the payload as a number, most significant byte
    /// first.
    pub fn u32(&mut self) -> (r: Result<u32, DecoderError>)
        ensures
            match r {
                Ok(v) => old(self)@.remaining.len() >= 4 && v == word32(old(self)@.remaining)
                    && final(self)@ == (ParserView {
                    remaining: old(self)@.remaining.skip(4),
                    ..old(self)@
                }),
                Err(e) => e == DecoderError::ChunkLength && old(self)@.remaining.len() < 4
                    && final(self)@ == old(self)@,
            },
    {
        proof {
            use_type_invariant(&*self);
        }
        if self.end - self.pos < 4 {
            return Err(DecoderError::ChunkLength);
        }
        let v: u32 = get_u32(self.data, self.pos);
        *self = Parser { data: self.data, pos: self.pos + 4, end: self.end, open: self.open, crc: self.crc };
        assert(self@.remaining =~= old(self)@.remaining.skip(4));
        Ok(v)
    }

    /// Reads the next `n` bytes of the payload.
    pub fn raw(&mut self, n: usize) -> (r: Result<Vec<u8>, DecoderError>)
        ensures
            match r {
                Ok(v) => old(self)@.remaining.len() >= n && v@ == old(self)@.remaining.take(
                    n as int,
                ) && final(self)@ == (ParserView {
                    remaining: old(self)@.remaining.skip(n as int),
                    ..old(self)@
                }),
                Err(e) => e == DecoderError::ChunkLength && old(self)@.remaining.len() < n
                    && final(self)@ == old(self)@,
            },
    {
        proof {
            use_type_invariant(&*self);
        }
        if self.end - self.pos < n {
            return Err(DecoderError::ChunkLength);
        }
        let v = slice_to_vec(slice_subrange(self.data, self.pos, self.pos + n));
        *self = Parser { data: self.data, pos: self.pos + n, end: self.end, open: self.open, crc: self.crc };
        assert(v@ =~= old(self)@.remaining.take(n as int));
        assert(self@.remaining =~= old(self)@.remaining.skip(n as int));
        Ok(v)
    }

    /// Reads what is left of the payload.
    pub fn vec_eof(&mut self) -> (v: Vec<u8>)
        ensures
            v@ == old(self)@.remaining,
            final(self)@ == (ParserView { remaining: Seq::<u8>::empty(), ..old(self)@ }),
    {
        proof {
            use_type_invariant(&*self);
        }
        let v = slice_to_vec(slice_subrange(self.data, self.pos, self.end));
        *self = Parser { data: self.data, pos: self.end, end: self.end, open: self.open, crc: self.crc };
        assert(self@.remaining =~= Seq::<u8>::empty());
        v
    }

    /// Confirms that the payload of the chunk in hand was read to its last
    /// byte, lets the chunk go, and returns its checksum. With payload left
    /// to read, or no chunk in hand, it fails with `ChunkLength`.
    pub fn end(&mut self) -> (r: Result<u32, DecoderError>)
        ensures
            match r {
                Ok(crc) => old(self)@.open && old(self)@.remaining.len() == 0 && crc == old(self)@.checksum && final(self)@ == (ParserView { open: false, ..old(self)@ }),
                Err(e) => e == DecoderError::ChunkLength && !(old(self)@.open && old(self)@.remaining.len() == 0) && final(self)@ == old(self)@,
            },
    {
        proof {
            use_type_invariant(&*self);
        }
        let total: usize = self.data.len();
        if !self.open || self.pos != self.end {
            return Err(DecoderError::ChunkLength);
        }
        assert(self.end + 4 <= total);
        *self = Parser { data: self.data, pos: self.end + 4, end: self.end + 4, open: false, crc: self.crc };
        assert(self@.remaining =~= old(self)@.remaining);
        Ok(self.crc)
    }
}

} // verus!
