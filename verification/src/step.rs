//! Frame after frame: the decoder that hands out the pictures of a file
//! one at a time, and the encoder that writes them one at a time.

use vstd::prelude::*;
use crate::chunk::{
    limit_ok, parse_payload, AnimationControl, Chunk, ChunkView, FrameControl, ImageEnd,
    ImageHeader,
};
use crate::config::Config;
use crate::consts::{
    ANIMATION_CONTROL, FRAME_CONTROL, FRAME_DATA, IMAGE_DATA, IMAGE_END, IMAGE_HEADER, MAX_CHUNK,
    SIGNATURE,
};
use crate::decoder::{read_signature, Parser};
use crate::encoder::{data_frames, lemma_pieces, pieces, sequence_frames, Enc};
use crate::error::{DecoderError, EncoderError};
use crate::frame::{Frame, FrameView};
use crate::tag::{kind_of, lookup, same_tag, ChunkKind};
use crate::wire::{frame, read_frame};
use crate::zlib::{compress, decompress, deflated, inflated, level_ok};

verus! {

/// What was gathered from a run of chunks of one type: the payloads
/// joined, and the bytes after the run.
pub struct Gathered {
    pub stream: Result<Seq<u8>, DecoderError>,
    pub rest: Seq<u8>,
}

impl Gathered {
    /// The same with `head` before the stream.
    pub open spec fn after(self, head: Seq<u8>) -> Gathered {
        Gathered {
            stream: match self.stream {
                Ok(stream) => Ok(head + stream),
                Err(e) => Err(e),
            },
            rest: self.rest,
        }
    }
}

/// The run of chunks of type `tag` that `s` begins with: it ends before
/// the first chunk of another type, and before whatever does not read as a
/// chunk. From each payload the first `strip` bytes are left out; a
/// payload without them is a length error.
#[verifier::opaque]
pub open spec fn gather(tag: Seq<u8>, strip: nat, s: Seq<u8>) -> Gathered
    decreases s.len(),
{
    match read_frame(s) {
        Ok(raw) => if raw.tag != tag {
            Gathered { stream: Ok(Seq::empty()), rest: s }
        } else if raw.payload.len() < strip {
            Gathered { stream: Err(DecoderError::ChunkLength), rest: s }
        } else {
            gather(tag, strip, s.skip(raw.payload.len() as int + 12)).after(
                raw.payload.skip(strip as int),
            )
        },
        Err(_) => Gathered { stream: Ok(Seq::empty()), rest: s },
    }
}

/// Gathers the run of chunks of type `tag` that follows the cursor, and
/// leaves the cursor behind the run.
pub fn gather_run(parse: &mut Parser, tag: &[u8; 4], strip: usize) -> (r: Result<
    Vec<u8>,
    DecoderError,
>)
    requires
        !old(parse)@.open,
    ensures
        !final(parse)@.open,
        final(parse)@.upcoming == gather(tag@, strip as nat, old(parse)@.upcoming).rest,
        match gather(tag@, strip as nat, old(parse)@.upcoming).stream {
            Ok(stream) => r is Ok && r->Ok_0@ == stream,
            Err(e) => r is Err && r->Err_0 == e,
        },
{
    let ghost whole = gather(tag@, strip as nat, parse@.upcoming);
    let mut stream: Vec<u8> = Vec::new();
    let mut more = true;
    proof {
        reveal(gather);
    }
    assert(whole.after(stream@).stream matches Ok(s) ==> s =~= whole.stream->Ok_0);
    while more
        invariant
            !parse@.open,
            whole == gather(tag@, strip as nat, old(parse)@.upcoming),
            more ==> whole == gather(tag@, strip as nat, parse@.upcoming).after(stream@),
            !more ==> whole == (Gathered { stream: Ok(stream@), rest: parse@.upcoming }),
        decreases
                parse@.upcoming.len() + (if more {
                    1int
                } else {
                    0
                }),
    {
        let ghost s = parse@.upcoming;
        let ghost before = stream@;
        proof {
            reveal(gather);
        }
        let mut ahead = *parse;
        match ahead.prepare() {
            Err(_) => {
                more = false;
                assert(before + Seq::<u8>::empty() =~= before);
            },
            Ok(found) => {
                if !same_tag(&found, tag) {
                    more = false;
                    assert(before + Seq::<u8>::empty() =~= before);
                } else if ahead.len() < strip {
                    return Err(DecoderError::ChunkLength);
                } else {
                    let ghost payload = ahead@.remaining;
                    let _ = ahead.raw(strip);
                    let mut piece = ahead.vec_eof();
                    let _ = ahead.end();
                    stream.append(&mut piece);
                    *parse = ahead;
                    proof {
                        let next = gather(tag@, strip as nat, parse@.upcoming);
                        assert(stream@ == before + payload.skip(strip as int));
                        match next.stream {
                            Ok(m) => {
                                assert(stream@ + m =~= before + (payload.skip(strip as int) + m));
                            },
                            Err(_) => {},
                        }
                    }
                }
            },
        }
    }
    Ok(stream)
}

/// What a [`StepDecoder`] stands for.
pub struct StepView {
    /// The bytes still to be read.
    pub upcoming: Seq<u8>,
    /// The header, once it was read.
    pub header: Option<ImageHeader>,
    /// The control record that waits for its frame.
    pub control: Option<FrameControl>,
    /// The picture of the image data was handed out.
    pub image_seen: bool,
    /// No frame will come any more.
    pub done: bool,
}

/// What one step of the decoder gives: a frame, a failure, or nothing
/// more.
pub type Outcome = Option<Result<FrameView, DecoderError>>;

impl StepView {
    /// A decoder before the first byte of `bytes`.
    pub open spec fn start(bytes: Seq<u8>) -> StepView {
        StepView { upcoming: bytes, header: None, control: None, image_seen: false, done: false }
    }

    /// A decoder that has nothing more to give.
    pub open spec fn finished() -> StepView {
        StepView {
            upcoming: Seq::empty(),
            header: None,
            control: None,
            image_seen: false,
            done: true,
        }
    }

    /// A failure, which ends the decoding.
    pub open spec fn fail(e: DecoderError) -> (Outcome, StepView) {
        (Some(Err(e)), StepView::finished())
    }

    /// The frame made of a gathered run: the stream is unpacked and the
    /// filters are undone. The control record that waited goes with the
    /// frame. `first` says that the run was the image data.
    pub open spec fn deliver(self, run: Gathered, first: bool) -> (Outcome, StepView) {
        match run.stream {
            Err(e) => StepView::fail(e),
            Ok(stream) => match inflated(stream) {
                None => StepView::fail(DecoderError::Zlib),
                Some(data) => match FrameView::unpack(self.header->Some_0, self.control, data) {
                    Err(e) => StepView::fail(e),
                    Ok(frame) => (
                        Some(Ok(frame)),
                        StepView {
                            upcoming: run.rest,
                            control: None,
                            image_seen: self.image_seen || first,
                            ..self
                        },
                    ),
                },
            },
        }
    }

    /// The state after the signature and the header, which every file
    /// begins with.
    #[verifier::opaque]
    pub open spec fn begin(self) -> Result<StepView, DecoderError> {
        let s = self.upcoming;
        match read_signature(s) {
            Err(e) => Err(e),
            Ok(_) => match read_frame(s.skip(8)) {
                Err(e) => Err(e),
                Ok(raw) => if kind_of(raw.tag) != ChunkKind::ImageHeader {
                    Err(DecoderError::Order)
                } else {
                    match parse_payload(raw.tag, raw.payload) {
                        Err(e) => Err(e),
                        Ok(c) => match c {
                            ChunkView::ImageHeader(header) => Ok(
                                StepView {
                                    upcoming: s.skip(8).skip(raw.payload.len() as int + 12),
                                    header: Some(header),
                                    ..self
                                },
                            ),
                            _ => Err(DecoderError::Order),
                        },
                    }
                },
            },
        }
    }

    /// What the next chunk leads to, after the header.
    ///
    /// A run of image data or of frame data gives a frame. A frame
    /// control record waits for the frame that follows it. Any other
    /// chunk must hold a valid record and is passed over. The end marker
    /// and the end of the bytes end the decoding, and so does a failure.
    /// A second header, a second run of image data, and frame data before
    /// the image data or without a control record are ordering errors.
    #[verifier::opaque]
    pub open spec fn chunk(self) -> Move {
        let s = self.upcoming;
        if s.len() == 0 {
            Move::Give(None, StepView::finished())
        } else {
            match read_frame(s) {
                Err(e) => Move::give(StepView::fail(e)),
                Ok(raw) => {
                    let kind = kind_of(raw.tag);
                    if kind == ChunkKind::ImageHeader {
                        Move::give(StepView::fail(DecoderError::Order))
                    } else if kind == ChunkKind::ImageData {
                        if self.image_seen {
                            Move::give(StepView::fail(DecoderError::Order))
                        } else {
                            Move::give(self.deliver(gather(IMAGE_DATA@, 0, s), true))
                        }
                    } else if kind == ChunkKind::FrameData {
                        if !self.image_seen || self.control is None {
                            Move::give(StepView::fail(DecoderError::Order))
                        } else {
                            Move::give(self.deliver(gather(FRAME_DATA@, 4, s), false))
                        }
                    } else {
                        match parse_payload(raw.tag, raw.payload) {
                            Err(e) => Move::give(StepView::fail(e)),
                            Ok(c) => if kind == ChunkKind::ImageEnd {
                                Move::Give(None, StepView::finished())
                            } else {
                                Move::Stay(
                                    StepView {
                                        upcoming: s.skip(raw.payload.len() as int + 12),
                                        control: match c {
                                            ChunkView::FrameControl(control) => Some(control),
                                            _ => self.control,
                                        },
                                        ..self
                                    },
                                )
                            },
                        }
                    }
                },
            }
        }
    }

    /// One step: the next frame and the state after it. The file begins
    /// with the signature and the header; after them chunk follows chunk
    /// until one gives a frame or ends the decoding.
    pub open spec fn advance(self) -> (Outcome, StepView)
        decreases self.upcoming.len(),
    {
        if self.done {
            (None, StepView::finished())
        } else if self.header is None {
            proof {
                reveal(StepView::begin);
            }
            match self.begin() {
                Err(e) => StepView::fail(e),
                Ok(st) => st.advance(),
            }
        } else {
            proof {
                reveal(StepView::chunk);
            }
            match self.chunk() {
                Move::Give(outcome, st) => (outcome, st),
                Move::Stay(st) => st.advance(),
            }
        }
    }
}

/// Where one chunk leads.
pub enum Move {
    /// The decoder goes on from this state.
    Stay(StepView),
    /// The step ends with this outcome, in this state.
    Give(Outcome, StepView),
}

impl Move {
    /// The end of a step.
    pub open spec fn give(end: (Outcome, StepView)) -> Move {
        Move::Give(end.0, end.1)
    }
}

/// Where one chunk led.
enum Moved<'a> {
    Stay(Parser<'a>, Option<FrameControl>),
    Give(Option<Result<Frame, DecoderError>>, StepDecoder<'a>),
}

/// Whether what a step gave stands for `outcome`.
pub open spec fn agrees(r: Option<Result<Frame, DecoderError>>, outcome: Outcome) -> bool {
    match outcome {
        None => r is None,
        Some(Ok(frame)) => r matches Some(Ok(f)) && f@ == frame,
        Some(Err(e)) => r matches Some(Err(x)) && x == e,
    }
}

/// Hands out the frames of a file one after the other.
pub struct StepDecoder<'a> {
    parse: Parser<'a>,
    header: Option<ImageHeader>,
    control: Option<FrameControl>,
    image_seen: bool,
    done: bool,
}

impl<'a> View for StepDecoder<'a> {
    type V = StepView;

    closed spec fn view(&self) -> StepView {
        if self.done {
            StepView::finished()
        } else {
            StepView {
                upcoming: self.parse@.upcoming,
                header: self.header,
                control: self.control,
                image_seen: self.image_seen,
                done: false,
            }
        }
    }
}

impl<'a> StepDecoder<'a> {
    #[verifier::type_invariant]
    spec fn inv(self) -> bool {
        &&& self.done || !self.parse@.open
        &&& self.header is None ==> self.control is None && !self.image_seen
    }

    /// A decoder before the first byte of `bytes`.
    pub fn new(bytes: &'a [u8]) -> (decoder: StepDecoder<'a>)
        ensures
            decoder@ == StepView::start(bytes@),
    {
        StepDecoder {
            parse: Parser::new(bytes),
            header: None,
            control: None,
            image_seen: false,
            done: false,
        }
    }

    /// Whether no frame will come any more.
    pub fn is_done(&self) -> (done: bool)
        ensures
            done == self@.done,
    {
        self.done
    }

    /// The header of the file, from the first step until the decoding
    /// has ended.
    pub fn header(&self) -> (header: Option<ImageHeader>)
        ensures
            header == self@.header,
    {
        if self.done {
            None
        } else {
            self.header
        }
    }

    /// A decoder that has nothing more to give.
    fn finished(parse: Parser<'a>) -> (decoder: StepDecoder<'a>)
        ensures
            decoder@ == StepView::finished(),
    {
        StepDecoder { parse, header: None, control: None, image_seen: false, done: true }
    }

    /// Makes the frame of a gathered run.
    fn deliver(
        parse: Parser<'a>,
        header: ImageHeader,
        control: Option<FrameControl>,
        image_seen: bool,
        stream: Result<Vec<u8>, DecoderError>,
        first: bool,
        Ghost(run): Ghost<Gathered>,
    ) -> (r: (Option<Result<Frame, DecoderError>>, StepDecoder<'a>))
        requires
            !parse@.open,
            parse@.upcoming == run.rest,
            match run.stream {
                Ok(s) => stream is Ok && stream->Ok_0@ == s,
                Err(e) => stream is Err && stream->Err_0 == e,
            },
        ensures
            ({
                let (outcome, st) = (StepView {
                    upcoming: Seq::empty(),
                    header: Some(header),
                    control,
                    image_seen,
                    done: false,
                }).deliver(run, first);
                r.1@ == st && agrees(r.0, outcome)
            }),
    {
        let stream = match stream {
            Ok(stream) => stream,
            Err(e) => return (Some(Err(e)), Self::finished(parse)),
        };
        let data = match decompress(stream.as_slice()) {
            Ok(data) => data,
            Err(e) => return (Some(Err(e)), Self::finished(parse)),
        };
        match Frame::from_data(&header, control, data.as_slice()) {
            Err(e) => (Some(Err(e)), Self::finished(parse)),
            Ok(frame) => (
                Some(Ok(frame)),
                StepDecoder {
                    parse,
                    header: Some(header),
                    control: None,
                    image_seen: image_seen || first,
                    done: false,
                },
            ),
        }
    }

    /// Reads the signature and the header.
    fn begin(parse: &mut Parser<'a>) -> (r: Result<ImageHeader, DecoderError>)
        requires
            !old(parse)@.open,
        ensures
            match StepView::start(old(parse)@.upcoming).begin() {
                Ok(st) => r is Ok && !final(parse)@.open && st == (StepView {
                    upcoming: final(parse)@.upcoming,
                    header: Some(r->Ok_0),
                    control: None,
                    image_seen: false,
                    done: false,
                }),
                Err(e) => r == Err::<ImageHeader, DecoderError>(e),
            },
    {
        proof {
            reveal(StepView::begin);
        }
        parse.signature()?;
        let tag = parse.prepare()?;
        if lookup(&tag) != ChunkKind::ImageHeader {
            return Err(DecoderError::Order);
        }
        match Chunk::parse(tag, parse)? {
            Chunk::ImageHeader(header) => Ok(header),
            _ => Err(DecoderError::Order),
        }
    }

    /// Reads one chunk, or the run of data chunks that it begins.
    fn chunk(
        parse: Parser<'a>,
        header: ImageHeader,
        control: Option<FrameControl>,
        image_seen: bool,
    ) -> (r: Moved<'a>)
        requires
            !parse@.open,
        ensures
            match (StepView {
                upcoming: parse@.upcoming,
                header: Some(header),
                control,
                image_seen,
                done: false,
            }).chunk() {
                Move::Stay(st) => r matches Moved::Stay(p, c) && !p@.open && st == (StepView {
                    upcoming: p@.upcoming,
                    header: Some(header),
                    control: c,
                    image_seen,
                    done: false,
                }) && p@.upcoming.len() < parse@.upcoming.len(),
                Move::Give(outcome, st) => r matches Moved::Give(o, d) && d@ == st && agrees(
                    o,
                    outcome,
                ),
            },
    {
        proof {
            reveal(StepView::chunk);
        }
        let mut parse = parse;
        if parse.is_done() {
            return Moved::Give(None, Self::finished(parse));
        }
        let mut ahead = parse;
        let tag = match ahead.prepare() {
            Ok(tag) => tag,
            Err(e) => return Moved::Give(Some(Err(e)), Self::finished(parse)),
        };
        let kind = lookup(&tag);
        match kind {
            ChunkKind::ImageHeader => Moved::Give(
                Some(Err(DecoderError::Order)),
                Self::finished(parse),
            ),
            ChunkKind::ImageData => {
                if image_seen {
                    return Moved::Give(Some(Err(DecoderError::Order)), Self::finished(parse));
                }
                let ghost run = gather(IMAGE_DATA@, 0, parse@.upcoming);
                let stream = gather_run(&mut parse, &IMAGE_DATA, 0);
                let (r, d) = Self::deliver(
                    parse,
                    header,
                    control,
                    image_seen,
                    stream,
                    true,
                    Ghost(run),
                );
                Moved::Give(r, d)
            },
            ChunkKind::FrameData => {
                if !image_seen || control.is_none() {
                    return Moved::Give(Some(Err(DecoderError::Order)), Self::finished(parse));
                }
                let ghost run = gather(FRAME_DATA@, 4, parse@.upcoming);
                let stream = gather_run(&mut parse, &FRAME_DATA, 4);
                let (r, d) = Self::deliver(
                    parse,
                    header,
                    control,
                    image_seen,
                    stream,
                    false,
                    Ghost(run),
                );
                Moved::Give(r, d)
            },
            _ => {
                match Chunk::parse(tag, &mut ahead) {
                    Err(e) => Moved::Give(Some(Err(e)), Self::finished(parse)),
                    Ok(chunk) => {
                        if kind == ChunkKind::ImageEnd {
                            return Moved::Give(None, Self::finished(parse));
                        }
                        match chunk {
                            Chunk::FrameControl(c) => Moved::Stay(ahead, Some(c)),
                            _ => Moved::Stay(ahead, control),
                        }
                    },
                }
            },
        }
    }

    /// Reads chunk after chunk until one gives a frame or ends the
    /// decoding.
    fn step(
        parse: Parser<'a>,
        header: Option<ImageHeader>,
        control: Option<FrameControl>,
        image_seen: bool,
    ) -> (r: (Option<Result<Frame, DecoderError>>, StepDecoder<'a>))
        requires
            !parse@.open,
            header is None ==> control is None && !image_seen,
        ensures
            ({
                let (outcome, st) = (StepView {
                    upcoming: parse@.upcoming,
                    header,
                    control,
                    image_seen,
                    done: false,
                }).advance();
                r.1@ == st && agrees(r.0, outcome)
            }),
    {
        let ghost origin = StepView {
            upcoming: parse@.upcoming,
            header,
            control,
            image_seen,
            done: false,
        };
        let mut cursor = parse;
        let mut waiting = control;
        let head: ImageHeader = match header {
            Some(head) => head,
            None => match Self::begin(&mut cursor) {
                Ok(head) => head,
                Err(e) => return (Some(Err(e)), Self::finished(cursor)),
            },
        };
        loop
            invariant
                !cursor@.open,
                origin == (StepView {
                    upcoming: parse@.upcoming,
                    header,
                    control,
                    image_seen,
                    done: false,
                }),
                origin.advance() == (StepView {
                    upcoming: cursor@.upcoming,
                    header: Some(head),
                    control: waiting,
                    image_seen,
                    done: false,
                }).advance(),
            decreases cursor@.upcoming.len(),
        {
            match Self::chunk(cursor, head, waiting, image_seen) {
                Moved::Give(r, decoder) => return (r, decoder),
                Moved::Stay(p, c) => {
                    cursor = p;
                    waiting = c;
                },
            }
        }
    }

    /// The next frame, if there is one. After the last frame, and after a
    /// failure, every further call gives `None`.
    pub fn next(&mut self) -> (r: Option<Result<Frame, DecoderError>>)
        ensures
            final(self)@ == old(self)@.advance().1,
            agrees(r, old(self)@.advance().0),
    {
        proof {
            use_type_invariant(&*self);
        }
        if self.done {
            return None;
        }
        let (r, next) = Self::step(self.parse, self.header, self.control, self.image_seen);
        *self = next;
        r
    }
}

/// What a [`StepEncoder`] stands for.
pub struct EncoderView {
    /// Everything written so far.
    pub bytes: Seq<u8>,
    /// How hard the image data is packed.
    pub level: u8,
    /// The most stream that one chunk carries.
    pub limit: u32,
    /// The animation control record, where the file is an animation.
    pub animation: Option<AnimationControl>,
    /// The first frame was written, and with it the head of the file.
    pub begun: bool,
    /// The next sequence number of the animation.
    pub sequence: u32,
}

/// The control record `control` under the sequence number `sequence`.
pub open spec fn numbered(control: FrameControl, sequence: u32) -> FrameControl {
    FrameControl { sequence_number: sequence, ..control }
}

impl EncoderView {
    /// An encoder that has written nothing.
    pub open spec fn start(config: Config, animation: Option<AnimationControl>) -> EncoderView {
        EncoderView {
            bytes: Seq::empty(),
            level: config.level,
            limit: config.chunk_limit,
            animation,
            begun: false,
            sequence: 0,
        }
    }

    /// Whether `picture` is written with its control record: in an
    /// animation, where it has one.
    pub open spec fn shows(self, picture: FrameView) -> bool {
        self.animation is Some && picture.control is Some
    }

    /// The packed image data of `picture`.
    pub open spec fn stream(self, picture: FrameView) -> Seq<u8> {
        deflated(picture.pack()->Some_0, self.level)
    }

    /// The sequence number after `picture` is written: the control record
    /// takes one, and after the first frame every chunk of data takes one.
    pub open spec fn sequence_after(self, picture: FrameView) -> int {
        if !self.begun {
            if self.shows(picture) {
                self.sequence + 1
            } else {
                self.sequence as int
            }
        } else {
            self.sequence + 1 + pieces(self.stream(picture).len() as int, self.limit as int)
        }
    }

    /// Why `picture` is not written, if it is not. After the first frame
    /// only an animation takes more, and only frames with a control
    /// record (`Order`); the data must be as long as the rows
    /// (`DataLength`); level and limit must be in range (`Level`,
    /// `ChunkLimit`); and the sequence numbers must not run out
    /// (`TooLong`). The first of these that holds is given.
    pub open spec fn refusal(self, picture: FrameView) -> Option<EncoderError> {
        if self.begun && !self.shows(picture) {
            Some(EncoderError::Order)
        } else if picture.pack() is None {
            Some(EncoderError::DataLength)
        } else if !level_ok(self.level) {
            Some(EncoderError::Level)
        } else if !limit_ok(self.limit) {
            Some(EncoderError::ChunkLimit)
        } else if self.sequence_after(picture) > u32::MAX {
            Some(EncoderError::TooLong)
        } else {
            None
        }
    }

    /// The chunks that `picture` is written as. The first frame comes
    /// behind the head of the file: the signature, the header, and in an
    /// animation the animation control record. Then comes the frame's
    /// control record under the next sequence number, where it is shown,
    /// and the packed rows: of the first frame as image data, of every
    /// later one as frame data.
    pub open spec fn chunks(self, picture: FrameView) -> Seq<u8> {
        let control = if self.shows(picture) {
            frame(FRAME_CONTROL@, numbered(picture.control->Some_0, self.sequence).payload())
        } else {
            Seq::empty()
        };
        if !self.begun {
            SIGNATURE@ + frame(IMAGE_HEADER@, picture.header().payload()) + (match self.animation {
                Some(a) => frame(ANIMATION_CONTROL@, a.payload()),
                None => Seq::empty(),
            }) + control + data_frames(IMAGE_DATA@, self.stream(picture), self.limit as int)
        } else {
            control + sequence_frames(self.stream(picture), self.limit as int, self.sequence + 1)
        }
    }

    /// The encoder after `picture` was written.
    pub open spec fn written(self, picture: FrameView) -> EncoderView {
        EncoderView {
            bytes: self.bytes + self.chunks(picture),
            begun: true,
            sequence: self.sequence_after(picture) as u32,
            ..self
        }
    }
}

/// Writes the frames of a file one after the other.
///
/// A frame is given with its rows as they are, neither filtered nor
/// packed: the encoder puts every row behind the filter type 0 and packs
/// the rows at the level that was chosen. The first frame becomes the
/// image data of the file; every later one is frame data of the
/// animation.
pub struct StepEncoder {
    enc: Enc,
    level: u8,
    animation: Option<AnimationControl>,
    begun: bool,
    sequence: u32,
}

impl View for StepEncoder {
    type V = EncoderView;

    closed spec fn view(&self) -> EncoderView {
        EncoderView {
            bytes: self.enc@.bytes,
            level: self.level,
            limit: self.enc@.limit,
            animation: self.animation,
            begun: self.begun,
            sequence: self.sequence,
        }
    }
}

impl StepEncoder {
    /// Whether no chunk is left open between two steps.
    pub closed spec fn wf(&self) -> bool {
        !self.enc@.open
    }

    /// An encoder that has written nothing. With `animation` the file
    /// becomes an animation. Choices out of range are refused.
    pub fn new(config: &Config, animation: Option<AnimationControl>) -> (r: Result<
        StepEncoder,
        EncoderError,
    >)
        ensures
            match config.refusal() {
                Some(e) => r is Err && r->Err_0 == e,
                None => r is Ok && r->Ok_0.wf() && r->Ok_0@ == EncoderView::start(
                    *config,
                    animation,
                ),
            },
    {
        match config.check() {
            Ok(_) => {},
            Err(e) => return Err(e),
        }
        Ok(
            StepEncoder {
                enc: Enc::new(config.chunk_limit),
                level: config.level,
                animation,
                begun: false,
                sequence: 0,
            },
        )
    }

    /// Writes one frame. Where the frame is refused nothing is written.
    pub fn encode(&mut self, picture: &Frame) -> (r: Result<(), EncoderError>)
        requires
            old(self).wf(),
        ensures
            final(self).wf(),
            match old(self)@.refusal(picture@) {
                Some(e) => r == Err::<(), EncoderError>(e) && final(self)@ == old(self)@,
                None => r is Ok && final(self)@ == old(self)@.written(picture@),
            },
            r is Ok ==> inflated(old(self)@.stream(picture@)) == picture@.pack(),
    {
        let limit: u32 = self.enc.limit();
        let control = match (self.animation, picture.control) {
            (Some(_), Some(control)) => Some(control),
            _ => None,
        };
        if self.begun && control.is_none() {
            return Err(EncoderError::Order);
        }
        let data = picture.to_data()?;
        let stream = compress(data.as_slice(), self.level)?;
        if limit < 1 || limit > MAX_CHUNK {
            return Err(EncoderError::ChunkLimit);
        }
        let ghost before = self@;
        if !self.begun {
            if control.is_some() && self.sequence == u32::MAX {
                return Err(EncoderError::TooLong);
            }
            self.enc.signature();
            let _ = picture.header().write(&mut self.enc);
            match self.animation {
                Some(a) => {
                    let _ = a.write(&mut self.enc);
                },
                None => {
                    assert(self.enc@.bytes + Seq::<u8>::empty() =~= self.enc@.bytes);
                },
            }
            match control {
                Some(c) => {
                    let shown = FrameControl {
                        sequence_number: self.sequence,
                        width: c.width,
                        height: c.height,
                        x_offset: c.x_offset,
                        y_offset: c.y_offset,
                        delay_num: c.delay_num,
                        delay_den: c.delay_den,
                        dispose_op: c.dispose_op,
                        blend_op: c.blend_op,
                    };
                    let _ = shown.write(&mut self.enc);
                    self.sequence = self.sequence + 1;
                },
                None => {
                    assert(self.enc@.bytes + Seq::<u8>::empty() =~= self.enc@.bytes);
                },
            }
            self.enc.image_data(stream.as_slice());
            self.begun = true;
            assert(self@.bytes =~= before.bytes + before.chunks(picture@));
            Ok(())
        } else {
            let total: usize = stream.len();
            let count: usize = if total == 0 {
                1
            } else {
                (total - 1) / (limit as usize) + 1
            };
            proof {
                lemma_pieces(total as int, limit as int);
            }
            if self.sequence == u32::MAX || count > (u32::MAX - self.sequence - 1) as usize {
                return Err(EncoderError::TooLong);
            }
            let c = control.unwrap();
            let shown = FrameControl {
                sequence_number: self.sequence,
                width: c.width,
                height: c.height,
                x_offset: c.x_offset,
                y_offset: c.y_offset,
                delay_num: c.delay_num,
                delay_den: c.delay_den,
                dispose_op: c.dispose_op,
                blend_op: c.blend_op,
            };
            let _ = shown.write(&mut self.enc);
            match self.enc.frame_data(stream.as_slice(), self.sequence + 1) {
                Some(next) => {
                    self.sequence = next;
                },
                None => {},
            }
            assert(self@.bytes =~= before.bytes + before.chunks(picture@));
            Ok(())
        }
    }

    /// Ends the file with the end marker and gives its bytes. Without a
    /// frame there is no file: `Order`.
    pub fn finish(self) -> (r: Result<Vec<u8>, EncoderError>)
        requires
            self.wf(),
        ensures
            match r {
                Ok(bytes) => self@.begun && bytes@ == self@.bytes + frame(
                    IMAGE_END@,
                    Seq::<u8>::empty(),
                ),
                Err(e) => !self@.begun && e == EncoderError::Order,
            },
    {
        if !self.begun {
            return Err(EncoderError::Order);
        }
        let mut enc = self.enc;
        let _ = ImageEnd.write(&mut enc);
        Ok(enc.finish())
    }
}

} // verus!
