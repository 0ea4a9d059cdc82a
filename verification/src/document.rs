//! The document: a header and the ordered records of a file, and the
//! assembler that builds one from a stream of chunks.

use vstd::prelude::*;
use crate::chunk::{parse_payload, Chunk, ChunkView, ImageData, ImageHeader};
use crate::config::Config;
use crate::consts::SIGNATURE;
use crate::decoder::{read_signature, Parser, ParserView};
use crate::encoder::{Enc, EncView};
use crate::error::{DecoderError, EncoderError};
use crate::laws::{lemma_decoded_well_formed, lemma_round_trip, lemma_well_formed_fits};
use crate::tag::{kind_of, lookup, ChunkKind};
use crate::wire::read_frame;
use crate::zlib::{decompress, deflated, inflated};

verus! {

/// What a [`Document`] stands for.
pub struct DocumentView {
    pub header: ImageHeader,
    pub chunks: Seq<ChunkView>,
}

/// A decoded file: its records in file order, the first of which is the
/// header, and the header once more by itself.
#[derive(Debug, Clone, PartialEq, Eq)]
pub struct Document {
    /// The header record
    pub header: ImageHeader,
    /// Every record, the header included
    pub chunks: Vec<Chunk>,
}

/// What each of `chunks` stands for.
pub open spec fn views(chunks: Seq<Chunk>) -> Seq<ChunkView> {
    chunks.map_values(|c: Chunk| c@)
}

impl View for Document {
    type V = DocumentView;

    open spec fn view(&self) -> DocumentView {
        DocumentView { header: self.header, chunks: views(self.chunks@) }
    }
}

/// Whether the codec unpacks what it has packed of the record at `level`;
/// this is asked of image data alone.
pub open spec fn chunk_packs_back(c: ChunkView, level: u8) -> bool {
    c matches ChunkView::ImageData(raw) ==> inflated(deflated(raw, level)) == Some(raw)
}

/// Whether any of `chunks` is image data.
pub open spec fn holds_image_data(chunks: Seq<ChunkView>) -> bool
    decreases chunks.len(),
{
    if chunks.len() == 0 {
        false
    } else {
        chunks.last() is ImageData || holds_image_data(chunks.drop_last())
    }
}

impl DocumentView {
    /// The document is one that decoding can give: the first record is
    /// the header, the only one, and the one that `header` repeats; every
    /// record is valid; there is at most one image data record; and the
    /// end marker, if there is one, is the last record.
    pub open spec fn wf(self) -> bool {
        &&& self.chunks.len() >= 1
        &&& self.chunks[0] == ChunkView::ImageHeader(self.header)
        &&& forall|i: int| 0 <= i < self.chunks.len() ==> (#[trigger] self.chunks[i]).valid()
        &&& forall|i: int| 1 <= i < self.chunks.len() ==> (#[trigger] self.chunks[i]) !is ImageHeader
        &&& forall|i: int, j: int|
            0 <= i < j < self.chunks.len() ==> !((#[trigger] self.chunks[i]) is ImageData && (
            #[trigger] self.chunks[j]) is ImageData)
        &&& forall|i: int|
            0 <= i < self.chunks.len() - 1 ==> (#[trigger] self.chunks[i]) !is ImageEnd
    }

    /// Every record can be written under `config`.
    pub open spec fn fits(self, config: Config) -> bool {
        forall|i: int|
            0 <= i < self.chunks.len() ==> (#[trigger] self.chunks[i]).refusal(
                config.level,
                config.chunk_limit,
            ) is None
    }

    /// The codec unpacks what it has packed of the image data at `level`.
    pub open spec fn packs_back(self, level: u8) -> bool {
        forall|i: int|
            0 <= i < self.chunks.len() ==> chunk_packs_back(#[trigger] self.chunks[i], level)
    }
}

/// The chunks that `chunks` are written as, one record after the other.
pub open spec fn encode_chunks(chunks: Seq<ChunkView>, level: u8, limit: u32) -> Seq<u8>
    decreases chunks.len(),
{
    if chunks.len() == 0 {
        Seq::empty()
    } else {
        chunks[0].frames(level, limit) + encode_chunks(chunks.drop_first(), level, limit)
    }
}

/// The file that a document is written as: the signature, then every
/// record.
pub open spec fn encode_spec(d: DocumentView, config: Config) -> Seq<u8> {
    SIGNATURE@ + encode_chunks(d.chunks, config.level, config.chunk_limit)
}

/// One more record adds its chunks at the end.
pub proof fn lemma_encode_push(chunks: Seq<ChunkView>, c: ChunkView, level: u8, limit: u32)
    ensures
        encode_chunks(chunks.push(c), level, limit) == encode_chunks(chunks, level, limit)
            + c.frames(level, limit),
    decreases chunks.len(),
{
    let all = chunks.push(c);
    if chunks.len() == 0 {
        assert(all.drop_first() =~= Seq::<ChunkView>::empty());
        assert(encode_chunks(all.drop_first(), level, limit) =~= Seq::<u8>::empty());
        assert(all[0] == c);
        assert(encode_chunks(all, level, limit) =~= c.frames(level, limit));
        assert(encode_chunks(chunks, level, limit) + c.frames(level, limit) =~= c.frames(
            level,
            limit,
        ));
    } else {
        assert(all.drop_first() =~= chunks.drop_first().push(c));
        lemma_encode_push(chunks.drop_first(), c, level, limit);
        assert(encode_chunks(all, level, limit) =~= encode_chunks(chunks, level, limit)
            + c.frames(level, limit));
    }
}

/// The state of assembling a document. The image data is at first not
/// begun (`stream` is `None` and `closed` is not set), then collected
/// (`stream` holds what was collected so far), then closed.
pub struct Assembly {
    /// The records assembled so far.
    pub chunks: Seq<ChunkView>,
    /// The packed image data collected so far, while it is being
    /// collected.
    pub stream: Option<Seq<u8>>,
    /// The image data was collected and is closed.
    pub closed: bool,
    /// The end marker was seen.
    pub ended: bool,
}

impl Assembly {
    /// Nothing seen yet.
    pub open spec fn start() -> Assembly {
        Assembly { chunks: Seq::empty(), stream: None, closed: false, ended: false }
    }

    /// What `unpacked`, the outcome of unpacking the collected stream,
    /// makes of the state: the unpacked data becomes a record and the
    /// stream is closed.
    pub open spec fn settle(self, unpacked: Option<Seq<u8>>) -> Result<Assembly, DecoderError> {
        match unpacked {
            None => Err(DecoderError::Zlib),
            Some(raw) => Ok(
                Assembly {
                    chunks: self.chunks.push(ChunkView::ImageData(raw)),
                    stream: None,
                    closed: true,
                    ended: self.ended,
                },
            ),
        }
    }

    /// Closes the image data if it is being collected.
    pub open spec fn close(self) -> Result<Assembly, DecoderError> {
        match self.stream {
            None => Ok(self),
            Some(stream) => self.settle(inflated(stream)),
        }
    }

    /// The state after one more chunk, of type `tag` and with `payload`.
    ///
    /// Nothing may follow the end marker. The first chunk must be the
    /// header, and no later one may be. Image data is collected while its
    /// chunks follow one another, and may not begin again once closed. Any
    /// other chunk closes the image data, which is unpacked then, and adds
    /// the record that it holds.
    pub open spec fn accept(self, tag: Seq<u8>, payload: Seq<u8>) -> Result<
        Assembly,
        DecoderError,
    > {
        let kind = kind_of(tag);
        if self.ended {
            Err(DecoderError::Order)
        } else if self.chunks.len() == 0 {
            if kind != ChunkKind::ImageHeader {
                Err(DecoderError::Order)
            } else {
                match parse_payload(tag, payload) {
                    Err(e) => Err(e),
                    Ok(c) => Ok(Assembly { chunks: self.chunks.push(c), ..self }),
                }
            }
        } else if kind == ChunkKind::ImageHeader {
            Err(DecoderError::Order)
        } else if kind == ChunkKind::ImageData {
            if self.closed {
                Err(DecoderError::Order)
            } else {
                Ok(Assembly { stream: Some(joined(self.stream, payload)), ..self })
            }
        } else {
            match self.close() {
                Err(e) => Err(e),
                Ok(st) => match parse_payload(tag, payload) {
                    Err(e) => Err(e),
                    Ok(c) => Ok(
                        Assembly {
                            chunks: st.chunks.push(c),
                            ended: kind == ChunkKind::ImageEnd,
                            ..st
                        },
                    ),
                },
            }
        }
    }

    /// The state that a chunk of type `tag` leaves behind where it is
    /// refused: the state as it was, but that image data which the chunk
    /// made to close stays closed.
    pub open spec fn refused(self, tag: Seq<u8>) -> Assembly {
        let kind = kind_of(tag);
        if self.ended || self.chunks.len() == 0 || kind == ChunkKind::ImageHeader || kind
            == ChunkKind::ImageData {
            self
        } else {
            match self.close() {
                Ok(st) => st,
                Err(_) => Assembly { stream: None, closed: true, ..self },
            }
        }
    }

    /// The document at the end of the stream. A stream without a header is
    /// cut short; image data still being collected is closed.
    pub open spec fn finish(self) -> Result<DocumentView, DecoderError> {
        if self.chunks.len() == 0 {
            Err(DecoderError::Eof)
        } else {
            match self.close() {
                Err(e) => Err(e),
                Ok(st) => match st.chunks[0] {
                    ChunkView::ImageHeader(header) => Ok(
                        DocumentView { header, chunks: st.chunks },
                    ),
                    _ => Err(DecoderError::Order),
                },
            }
        }
    }
}

/// The document that the chunks in `s` complete, from state `st`. Bytes
/// after the end marker are an ordering error.
#[verifier::opaque]
pub open spec fn decode_rest(st: Assembly, s: Seq<u8>) -> Result<DocumentView, DecoderError>
    decreases s.len(),
{
    if s.len() == 0 {
        st.finish()
    } else if st.ended {
        Err(DecoderError::Order)
    } else {
        match read_frame(s) {
            Err(e) => Err(e),
            Ok(raw) => match st.accept(raw.tag, raw.payload) {
                Err(e) => Err(e),
                Ok(next) => decode_rest(next, s.skip(raw.payload.len() as int + 12)),
            },
        }
    }
}

/// The document that `bytes` hold: the signature, then chunks to the end.
pub open spec fn decode_spec(bytes: Seq<u8>) -> Result<DocumentView, DecoderError> {
    match read_signature(bytes) {
        Err(e) => Err(e),
        Ok(_) => decode_rest(Assembly::start(), bytes.skip(8)),
    }
}

/// What an [`Accumulator`] stands for: nothing collected yet (`stream` is
/// `None` and `closed` is not set), collecting (`stream` holds what was
/// collected so far), or closed.
pub struct Accumulation {
    pub stream: Option<Seq<u8>>,
    pub closed: bool,
}

/// `more` added to the stream collected so far.
pub open spec fn joined(stream: Option<Seq<u8>>, more: Seq<u8>) -> Seq<u8> {
    match stream {
        None => more,
        Some(s) => s + more,
    }
}

/// Collects the packed image data from the chunks that carry it one
/// after the other, until it is closed.
pub struct Accumulator {
    stream: Option<Vec<u8>>,
    closed: bool,
}

impl View for Accumulator {
    type V = Accumulation;

    closed spec fn view(&self) -> Accumulation {
        Accumulation {
            stream: match self.stream {
                Some(stream) => Some(stream@),
                None => None,
            },
            closed: self.closed,
        }
    }
}

impl Accumulator {
    /// An accumulator that has collected nothing.
    pub fn new() -> (image: Accumulator)
        ensures
            image@ == (Accumulation { stream: None, closed: false }),
    {
        Accumulator { stream: None, closed: false }
    }

    /// Whether the accumulator is closed.
    pub fn is_closed(&self) -> (closed: bool)
        ensures
            closed == self@.closed,
    {
        self.closed
    }

    /// Adds the payload of one more chunk. A closed accumulator takes no
    /// more: to append to one is a fault of the caller.
    pub fn append(&mut self, payload: Vec<u8>)
        requires
            !old(self)@.closed,
        ensures
            final(self)@ == (Accumulation {
                stream: Some(joined(old(self)@.stream, payload@)),
                closed: false,
            }),
    {
        let mut piece = payload;
        let mut stream = match self.stream.take() {
            Some(stream) => stream,
            None => Vec::new(),
        };
        stream.append(&mut piece);
        self.stream = Some(stream);
        assert(self@.stream->Some_0 =~= joined(old(self)@.stream, payload@));
    }

    /// Ends the collecting, if anything was collected, and hands out the
    /// stream. An accumulator that has collected nothing stays as it is.
    pub fn close(&mut self) -> (stream: Option<Vec<u8>>)
        ensures
            match old(self)@.stream {
                Some(s) => stream is Some && stream->Some_0@ == s && final(self)@ == (Accumulation {
                    stream: None,
                    closed: true,
                }),
                None => stream is None && final(self)@ == old(self)@,
            },
    {
        match self.stream.take() {
            Some(stream) => {
                self.closed = true;
                Some(stream)
            },
            None => None,
        }
    }

    /// Closes the accumulator and drops what it has collected.
    pub fn seal(&mut self)
        ensures
            final(self)@ == (Accumulation { stream: None, closed: true }),
    {
        self.stream = None;
        self.closed = true;
    }
}

/// Builds a document from the chunks of a file, one at a time.
pub struct Assembler {
    chunks: Vec<Chunk>,
    image: Accumulator,
    ended: bool,
}

impl View for Assembler {
    type V = Assembly;

    closed spec fn view(&self) -> Assembly {
        Assembly {
            chunks: views(self.chunks@),
            stream: self.image@.stream,
            closed: self.image@.closed,
            ended: self.ended,
        }
    }
}

impl Assembler {
    /// An assembler that has seen nothing.
    pub fn new() -> (builder: Assembler)
        ensures
            builder@ == Assembly::start(),
    {
        let builder = Assembler { chunks: Vec::new(), image: Accumulator::new(), ended: false };
        assert(builder@.chunks =~= Seq::<ChunkView>::empty());
        builder
    }

    /// Whether the end marker was seen.
    pub fn is_ended(&self) -> (ended: bool)
        ensures
            ended == self@.ended,
    {
        self.ended
    }

    /// Takes `unpacked`, the outcome of unpacking the collected image
    /// data: the data becomes a record and the stream is closed; a failure
    /// is handed on.
    pub fn settle(&mut self, unpacked: Result<Vec<u8>, DecoderError>) -> (r: Result<
        (),
        DecoderError,
    >)
        ensures
            match unpacked {
                Ok(raw) => r is Ok && Ok::<Assembly, DecoderError>(final(self)@) == old(
                    self,
                )@.settle(Some(raw@)),
                Err(e) => r == Err::<(), DecoderError>(e) && final(self)@ == old(self)@,
            },
    {
        let data = unpacked?;
        self.chunks.push(Chunk::ImageData(ImageData::with_data(data)));
        self.image.seal();
        assert(self@.chunks =~= old(self)@.chunks.push(ChunkView::ImageData(data@)));
        Ok(())
    }

    /// Closes the image data if it is being collected: unpacks the stream
    /// and makes a record of the data. A stream that does not unpack is
    /// dropped.
    pub fn close(&mut self) -> (r: Result<(), DecoderError>)
        ensures
            match old(self)@.close() {
                Ok(st) => r is Ok && final(self)@ == st,
                Err(e) => r == Err::<(), DecoderError>(e) && final(self)@ == (Assembly {
                    stream: None,
                    closed: true,
                    ..old(self)@
                }),
            },
    {
        match self.image.close() {
            None => Ok(()),
            Some(stream) => {
                let unpacked = decompress(stream.as_slice());
                self.settle(unpacked)
            },
        }
    }

    /// Takes the chunk that `parse` has in hand, of type `tag`, and lets
    /// it go.
    pub fn accept(&mut self, tag: [u8; 4], parse: &mut Parser) -> (r: Result<(), DecoderError>)
        requires
            old(parse)@.open,
        ensures
            match old(self)@.accept(tag@, old(parse)@.remaining) {
                Ok(st) => r is Ok && final(self)@ == st && final(parse)@ == (ParserView {
                    open: false,
                    remaining: Seq::<u8>::empty(),
                    ..old(parse)@
                }),
                Err(e) => r == Err::<(), DecoderError>(e) && final(self)@ == old(self)@.refused(
                    tag@,
                ) && final(parse)@.same_chunk(old(parse)@),
            },
    {
        let kind = lookup(&tag);
        if self.ended {
            return Err(DecoderError::Order);
        }
        if self.chunks.len() == 0 {
            if kind != ChunkKind::ImageHeader {
                return Err(DecoderError::Order);
            }
            let chunk = Chunk::parse(tag, parse)?;
            self.chunks.push(chunk);
            assert(self@.chunks =~= old(self)@.chunks.push(chunk@));
            return Ok(());
        }
        match kind {
            ChunkKind::ImageHeader => Err(DecoderError::Order),
            ChunkKind::ImageData => {
                if self.image.is_closed() {
                    return Err(DecoderError::Order);
                }
                let (slice, _) = ImageData::read(parse)?;
                self.image.append(slice.data);
                Ok(())
            },
            _ => {
                self.close()?;
                let ghost st = self@;
                let chunk = Chunk::parse(tag, parse)?;
                self.chunks.push(chunk);
                self.ended = kind == ChunkKind::ImageEnd;
                assert(self@.chunks =~= st.chunks.push(chunk@));
                Ok(())
            },
        }
    }

    /// The document at the end of the stream.
    pub fn finish(self) -> (r: Result<Document, DecoderError>)
        ensures
            match self@.finish() {
                Ok(d) => r is Ok && r->Ok_0@ == d,
                Err(e) => r is Err && r->Err_0 == e,
            },
    {
        let mut builder = self;
        if builder.chunks.len() == 0 {
            return Err(DecoderError::Eof);
        }
        builder.close()?;
        assert(builder@.chunks.len() == builder.chunks@.len());
        assert(builder@.chunks.len() >= self@.chunks.len());
        assert(builder@.chunks[0] == builder.chunks@[0]@);
        let header = match &builder.chunks[0] {
            Chunk::ImageHeader(header) => *header,
            _ => return Err(DecoderError::Order),
        };
        Ok(Document { header, chunks: builder.chunks })
    }
}

impl Document {
    /// Whether the document is one that decoding can give.
    pub fn is_well_formed(&self) -> (ok: bool)
        ensures
            ok == self@.wf(),
    {
        let n: usize = self.chunks.len();
        if n == 0 {
            return false;
        }
        match &self.chunks[0] {
            Chunk::ImageHeader(header) => {
                if !(header.width == self.header.width && header.height == self.header.height
                    && header.color_type == self.header.color_type && header.bit_depth
                    == self.header.bit_depth && header.interlace == self.header.interlace) {
                    return false;
                }
            },
            _ => {
                return false;
            },
        }
        let mut seen: bool = false;
        let mut i: usize = 0;
        while i < n
            invariant
                0 <= i <= n == self.chunks@.len(),
                self@.chunks.len() == n,
                self@.chunks[0] == ChunkView::ImageHeader(self.header),
                forall|j: int| 0 <= j < i ==> (#[trigger] self@.chunks[j]).valid(),
                forall|j: int| 1 <= j < i ==> (#[trigger] self@.chunks[j]) !is ImageHeader,
                forall|j: int| 0 <= j < i && j < n - 1 ==> (#[trigger] self@.chunks[j]) !is ImageEnd,
                seen <==> exists|j: int| 0 <= j < i && (#[trigger] self@.chunks[j]) is ImageData,
                forall|j: int, k: int|
                    0 <= j < k < i ==> !((#[trigger] self@.chunks[j]) is ImageData && (
                    #[trigger] self@.chunks[k]) is ImageData),
            decreases n - i,
        {
            let chunk = &self.chunks[i];
            let ghost c = self@.chunks[i as int];
            assert(c == chunk@);
            if !chunk.is_valid() {
                return false;
            }
            match chunk {
                Chunk::ImageHeader(_) => {
                    if i > 0 {
                        return false;
                    }
                },
                Chunk::ImageData(_) => {
                    if seen {
                        let ghost j = choose|j: int|
                            0 <= j < i && (#[trigger] self@.chunks[j]) is ImageData;
                        assert(self@.chunks[j] is ImageData && self@.chunks[i as int] is ImageData);
                        return false;
                    }
                    seen = true;
                },
                Chunk::ImageEnd(_) => {
                    if i + 1 < n {
                        return false;
                    }
                },
                _ => {},
            }
            i = i + 1;
        }
        true
    }

    /// Writes the document as a file: the signature, then every record in
    /// order, the image data packed at the level and cut at the limit of
    /// `config`.
    ///
    /// The choices of `config` are looked at before anything else: a level
    /// out of range gives `Level`, a limit out of range `ChunkLimit`. A
    /// record whose bytes do not fit one chunk gives `TooLong`.
    pub fn encode(&self, config: &Config) -> (r: Result<Vec<u8>, EncoderError>)
        ensures
            match r {
                Ok(bytes) => config.valid() && self@.fits(*config) && bytes@ == encode_spec(
                    self@,
                    *config,
                ) && self@.packs_back(config.level),
                Err(e) => match config.refusal() {
                    Some(refusal) => e == refusal,
                    None => e == EncoderError::TooLong && !self@.fits(*config),
                },
            },
            self@.wf() && config.valid() ==> r is Ok && decode_spec(r->Ok_0@) == Ok::<
                DocumentView,
                DecoderError,
            >(self@),
    {
        proof {
            if self@.wf() && config.valid() {
                lemma_well_formed_fits(self@, *config);
            }
        }
        config.check()?;
        let mut enc = Enc::new(config.chunk_limit);
        enc.signature();
        let n: usize = self.chunks.len();
        let mut i: usize = 0;
        assert(views(self.chunks@).take(0) =~= Seq::<ChunkView>::empty());
        while i < n
            invariant
                0 <= i <= n == self.chunks@.len(),
                config.valid(),
                enc@ == EncView::idle(
                    SIGNATURE@ + encode_chunks(
                        views(self.chunks@).take(i as int),
                        config.level,
                        config.chunk_limit,
                    ),
                    config.chunk_limit,
                ),
                forall|j: int|
                    0 <= j < i ==> (#[trigger] self@.chunks[j]).refusal(
                        config.level,
                        config.chunk_limit,
                    ) is None,
                forall|j: int| 0 <= j < i ==> chunk_packs_back(#[trigger] self@.chunks[j], config.level),
            decreases n - i,
        {
            let ghost c = self@.chunks[i as int];
            let ghost before = views(self.chunks@).take(i as int);
            assert(c == self.chunks@[i as int]@);
            self.chunks[i].write(&mut enc, config.level)?;
            proof {
                lemma_encode_push(before, c, config.level, config.chunk_limit);
                assert(views(self.chunks@).take(i + 1) =~= before.push(c));
                assert(enc@.bytes =~= SIGNATURE@ + encode_chunks(
                    before.push(c),
                    config.level,
                    config.chunk_limit,
                ));
            }
            i = i + 1;
        }
        assert(views(self.chunks@).take(n as int) =~= self@.chunks);
        proof {
            if self@.wf() {
                lemma_round_trip(self@, *config);
            }
        }
        Ok(enc.finish())
    }

    /// Reads a whole file: the signature, then chunk after chunk to the
    /// end of the bytes. The first failure ends the reading.
    pub fn decode(bytes: &[u8]) -> (r: Result<Document, DecoderError>)
        ensures
            match decode_spec(bytes@) {
                Ok(d) => r is Ok && r->Ok_0@ == d,
                Err(e) => r is Err && r->Err_0 == e,
            },
            r is Ok ==> r->Ok_0@.wf(),
    {
        proof {
            if decode_spec(bytes@) is Ok {
                lemma_decoded_well_formed(bytes@);
            }
        }
        let mut parse = Parser::new(bytes);
        parse.signature()?;
        let mut builder = Assembler::new();
        while !parse.is_done()
            invariant
                !parse@.open,
                decode_rest(builder@, parse@.upcoming) == decode_spec(bytes@),
            decreases parse@.upcoming.len(),
        {
            proof {
                reveal(decode_rest);
            }
            if builder.is_ended() {
                return Err(DecoderError::Order);
            }
            let tag = parse.prepare()?;
            builder.accept(tag, &mut parse)?;
        }
        proof {
            reveal(decode_rest);
        }
        builder.finish()
    }
}

} // verus!
