//! What holds of the step encoder and the step decoder together.

use vstd::prelude::*;
use crate::chunk::{
    lemma_parsed, lemma_payload_round_trip, parse_payload, ChunkView, ImageHeader,
};
use crate::consts::{ANIMATION_CONTROL, FRAME_CONTROL, FRAME_DATA, IMAGE_DATA, IMAGE_HEADER, SIGNATURE};
use crate::encoder::{data_frames, sequence_frames};
use crate::error::DecoderError;
use crate::frame::{lemma_frame_round_trip, FrameView};
use crate::laws::lemma_concat_assoc;
use crate::step::{gather, numbered, EncoderView, Gathered, Move, StepView};
use crate::tag::{kind_of, lemma_catalog, ChunkKind};
use crate::wire::{be32, frame, lemma_read_frame, read_frame};
use crate::zlib::inflated;

verus! {

/// Whether `s` begins with a chunk of type `tag`.
pub open spec fn begins_with(s: Seq<u8>, tag: Seq<u8>) -> bool {
    read_frame(s) matches Ok(raw) && raw.tag == tag
}

/// Gathering a framed chunk of the type followed by `rest` is gathering
/// `rest`, with the chunk's payload before it.
pub proof fn lemma_gather_step(tag: Seq<u8>, strip: nat, payload: Seq<u8>, rest: Seq<u8>)
    requires
        tag.len() == 4,
        strip <= payload.len() <= u32::MAX,
    ensures
        gather(tag, strip, frame(tag, payload) + rest) == gather(tag, strip, rest).after(
            payload.skip(strip as int),
        ),
{
    reveal(gather);
    lemma_read_frame(tag, payload, rest);
}

/// Before whatever is no chunk of the type, nothing is gathered.
pub proof fn lemma_gather_stop(tag: Seq<u8>, strip: nat, s: Seq<u8>)
    requires
        !begins_with(s, tag),
    ensures
        gather(tag, strip, s) == (Gathered { stream: Ok(Seq::empty()), rest: s }),
{
    reveal(gather);
}

/// A stream written as image data chunks is gathered whole, up to
/// whatever follows that is no image data chunk.
pub proof fn lemma_gather_data(stream: Seq<u8>, limit: u32, rest: Seq<u8>)
    requires
        limit >= 1,
        !begins_with(rest, IMAGE_DATA@),
    ensures
        gather(IMAGE_DATA@, 0, data_frames(IMAGE_DATA@, stream, limit as int) + rest) == (Gathered {
            stream: Ok(stream),
            rest,
        }),
    decreases stream.len(),
{
    if stream.len() <= limit {
        lemma_gather_step(IMAGE_DATA@, 0, stream, rest);
        lemma_gather_stop(IMAGE_DATA@, 0, rest);
        assert(stream.skip(0) + Seq::<u8>::empty() =~= stream);
    } else {
        let first = stream.take(limit as int);
        let more = stream.skip(limit as int);
        let tail = data_frames(IMAGE_DATA@, more, limit as int);
        lemma_concat_assoc(frame(IMAGE_DATA@, first), tail, rest);
        lemma_gather_step(IMAGE_DATA@, 0, first, tail + rest);
        lemma_gather_data(more, limit, rest);
        assert(first.skip(0) + more =~= stream);
    }
}

/// A stream written as frame data chunks is gathered whole, without the
/// sequence numbers, up to whatever follows that is no frame data chunk.
pub proof fn lemma_gather_sequence(stream: Seq<u8>, limit: u32, sequence: int, rest: Seq<u8>)
    requires
        1 <= limit <= 0x7FFF_FFFF,
        !begins_with(rest, FRAME_DATA@),
    ensures
        gather(FRAME_DATA@, 4, sequence_frames(stream, limit as int, sequence) + rest) == (Gathered {
            stream: Ok(stream),
            rest,
        }),
    decreases stream.len(),
{
    let number = be32(sequence as u32);
    if stream.len() <= limit {
        lemma_gather_step(FRAME_DATA@, 4, number + stream, rest);
        lemma_gather_stop(FRAME_DATA@, 4, rest);
        assert((number + stream).skip(4) + Seq::<u8>::empty() =~= stream);
    } else {
        let first = stream.take(limit as int);
        let more = stream.skip(limit as int);
        let tail = sequence_frames(more, limit as int, sequence + 1);
        lemma_concat_assoc(frame(FRAME_DATA@, number + first), tail, rest);
        lemma_gather_step(FRAME_DATA@, 4, number + first, tail + rest);
        lemma_gather_sequence(more, limit, sequence + 1, rest);
        assert((number + first).skip(4) + more =~= stream);
    }
}

/// A stream written as image data chunks begins with an image data
/// chunk.
pub proof fn lemma_data_begins(stream: Seq<u8>, limit: u32, rest: Seq<u8>)
    requires
        limit >= 1,
    ensures
        begins_with(data_frames(IMAGE_DATA@, stream, limit as int) + rest, IMAGE_DATA@),
        (data_frames(IMAGE_DATA@, stream, limit as int) + rest).len() > 0,
{
    if stream.len() <= limit {
        lemma_read_frame(IMAGE_DATA@, stream, rest);
    } else {
        let first = stream.take(limit as int);
        let tail = data_frames(IMAGE_DATA@, stream.skip(limit as int), limit as int);
        lemma_concat_assoc(frame(IMAGE_DATA@, first), tail, rest);
        lemma_read_frame(IMAGE_DATA@, first, tail + rest);
    }
}

/// A stream written as frame data chunks begins with a frame data chunk.
pub proof fn lemma_sequence_begins(stream: Seq<u8>, limit: u32, sequence: int, rest: Seq<u8>)
    requires
        1 <= limit <= 0x7FFF_FFFF,
    ensures
        begins_with(sequence_frames(stream, limit as int, sequence) + rest, FRAME_DATA@),
        (sequence_frames(stream, limit as int, sequence) + rest).len() > 0,
{
    let number = be32(sequence as u32);
    if stream.len() <= limit {
        lemma_read_frame(FRAME_DATA@, number + stream, rest);
    } else {
        let first = stream.take(limit as int);
        let tail = sequence_frames(stream.skip(limit as int), limit as int, sequence + 1);
        lemma_concat_assoc(frame(FRAME_DATA@, number + first), tail, rest);
        lemma_read_frame(FRAME_DATA@, number + first, tail + rest);
    }
}

/// What a framed chunk followed by `rest` leads to, after the header:
/// as [`StepView::chunk`] says, with the chunk read.
pub proof fn lemma_chunk_step(st: StepView, tag: Seq<u8>, payload: Seq<u8>, rest: Seq<u8>)
    requires
        tag.len() == 4,
        payload.len() <= u32::MAX,
        kind_of(tag) != ChunkKind::ImageHeader,
        kind_of(tag) != ChunkKind::ImageData,
        kind_of(tag) != ChunkKind::FrameData,
        kind_of(tag) != ChunkKind::ImageEnd,
        parse_payload(tag, payload) is Ok,
    ensures
        (StepView { upcoming: frame(tag, payload) + rest, ..st }).chunk() == Move::Stay(
            StepView {
                upcoming: rest,
                control: match parse_payload(tag, payload)->Ok_0 {
                    ChunkView::FrameControl(control) => Some(control),
                    _ => st.control,
                },
                ..st
            },
        ),
{
    reveal(StepView::chunk);
    lemma_read_frame(tag, payload, rest);
}

/// A chunk that holds a valid record other than the header, image data,
/// frame data and the end marker is passed over; a frame control record
/// waits for its frame.
pub proof fn lemma_pass_over(st: StepView, record: ChunkView, rest: Seq<u8>)
    requires
        !st.done,
        st.header is Some,
        record.valid(),
        record !is ImageHeader,
        record !is ImageData,
        record !is FrameData,
        record !is ImageEnd,
    ensures
        (StepView { upcoming: frame(record.tag(), record.payload()) + rest, ..st }).advance() == (StepView {
            upcoming: rest,
            control: match record {
                ChunkView::FrameControl(control) => Some(control),
                _ => st.control,
            },
            ..st
        }).advance(),
{
    lemma_payload_round_trip(record);
    lemma_parsed(record.tag(), record.payload());
    lemma_chunk_step(st, record.tag(), record.payload(), rest);
}

/// After the signature and a valid header, the decoder goes on with
/// what follows them.
pub proof fn lemma_begin(header: ImageHeader, rest: Seq<u8>)
    requires
        header.valid(),
    ensures
        StepView::start(
            SIGNATURE@ + (frame(IMAGE_HEADER@, header.payload()) + rest),
        ).advance() == (StepView {
            upcoming: rest,
            header: Some(header),
            control: None,
            image_seen: false,
            done: false,
        }).advance(),
{
    let head = frame(IMAGE_HEADER@, header.payload());
    let bytes = SIGNATURE@ + (head + rest);
    lemma_catalog();
    assert(bytes.take(8) =~= SIGNATURE@);
    assert(bytes.skip(8) =~= head + rest);
    lemma_payload_round_trip(ChunkView::ImageHeader(header));
    lemma_read_frame(IMAGE_HEADER@, header.payload(), rest);
    reveal(StepView::begin);
}

/// Image data chunks that carry a stream give the frame that the stream
/// holds, where no picture was given before.
pub proof fn lemma_deliver_data(st: StepView, stream: Seq<u8>, limit: u32, rest: Seq<u8>)
    requires
        !st.done,
        st.header is Some,
        !st.image_seen,
        limit >= 1,
        !begins_with(rest, IMAGE_DATA@),
    ensures
        (StepView {
            upcoming: data_frames(IMAGE_DATA@, stream, limit as int) + rest,
            ..st
        }).advance() == st.deliver(Gathered { stream: Ok(stream), rest }, true),
{
    lemma_catalog();
    lemma_data_begins(stream, limit, rest);
    lemma_gather_data(stream, limit, rest);
    reveal(StepView::chunk);
}

/// Frame data chunks that carry a stream give the frame that the stream
/// holds, where the picture was given before and a control record waits.
pub proof fn lemma_deliver_sequence(
    st: StepView,
    stream: Seq<u8>,
    limit: u32,
    sequence: int,
    rest: Seq<u8>,
)
    requires
        !st.done,
        st.header is Some,
        st.image_seen,
        st.control is Some,
        1 <= limit <= 0x7FFF_FFFF,
        !begins_with(rest, FRAME_DATA@),
    ensures
        (StepView {
            upcoming: sequence_frames(stream, limit as int, sequence) + rest,
            ..st
        }).advance() == st.deliver(Gathered { stream: Ok(stream), rest }, false),
{
    lemma_catalog();
    lemma_sequence_begins(stream, limit, sequence, rest);
    lemma_gather_sequence(stream, limit, sequence, rest);
    reveal(StepView::chunk);
}

/// The frame as the decoder gives it back: with its control record under
/// the sequence number that the encoder gave it, where it was written
/// with one, and without a control record where it was not.
pub open spec fn shown(st: EncoderView, picture: FrameView) -> FrameView {
    FrameView {
        control: if st.shows(picture) {
            Some(numbered(picture.control->Some_0, st.sequence))
        } else {
            None
        },
        ..picture
    }
}

/// The first frame that the encoder writes is the first frame that the
/// decoder gives: for every frame that the encoder takes, with a valid
/// header and, where it has a control record, the size that the record
/// gives, provided that the codec unpacks what it has packed of the rows,
/// and that no further image data chunk follows.
pub proof fn lemma_first_frame(st: EncoderView, picture: FrameView, rest: Seq<u8>)
    requires
        !st.begun,
        st.refusal(picture) is None,
        picture.header().valid(),
        picture.control matches Some(c) ==> c.width == picture.width && c.height
            == picture.height,
        inflated(st.stream(picture)) == picture.pack(),
        !begins_with(rest, IMAGE_DATA@),
    ensures
        StepView::start(st.chunks(picture) + rest).advance() == (
            Some(Ok::<FrameView, DecoderError>(shown(st, picture))),
            StepView {
                upcoming: rest,
                header: Some(picture.header()),
                control: None,
                image_seen: true,
                done: false,
            },
        ),
{
    let header = picture.header();
    let head = frame(IMAGE_HEADER@, header.payload());
    let animation = match st.animation {
        Some(a) => frame(ANIMATION_CONTROL@, a.payload()),
        None => Seq::empty(),
    };
    let control = if st.shows(picture) {
        frame(FRAME_CONTROL@, numbered(picture.control->Some_0, st.sequence).payload())
    } else {
        Seq::empty()
    };
    let data = data_frames(IMAGE_DATA@, st.stream(picture), st.limit as int);
    let bytes = st.chunks(picture) + rest;
    assert(bytes == SIGNATURE@ + (head + (animation + (control + (data + rest))))) by {
        lemma_concat_assoc(SIGNATURE@ + head + animation + control, data, rest);
        lemma_concat_assoc(SIGNATURE@ + head + animation, control, data + rest);
        lemma_concat_assoc(SIGNATURE@ + head, animation, control + (data + rest));
        lemma_concat_assoc(SIGNATURE@, head, animation + (control + (data + rest)));
    }
    lemma_begin(header, animation + (control + (data + rest)));
    let s1 = StepView {
        upcoming: animation + (control + (data + rest)),
        header: Some(header),
        control: None,
        image_seen: false,
        done: false,
    };
    let s2 = StepView { upcoming: control + (data + rest), ..s1 };
    assert(s1.advance() == s2.advance()) by {
        match st.animation {
            Some(a) => {
                lemma_pass_over(s1, ChunkView::AnimationControl(a), control + (data + rest));
            },
            None => {
                assert(animation + (control + (data + rest)) =~= control + (data + rest));
            },
        }
    }
    let s3 = StepView { upcoming: data + rest, control: shown(st, picture).control, ..s1 };
    assert(s2.advance() == s3.advance()) by {
        if st.shows(picture) {
            lemma_pass_over(
                s1,
                ChunkView::FrameControl(numbered(picture.control->Some_0, st.sequence)),
                data + rest,
            );
        } else {
            assert(control + (data + rest) =~= data + rest);
        }
    }
    lemma_deliver_data(s3, st.stream(picture), st.limit, rest);
    lemma_frame_round_trip(shown(st, picture));
}

/// A later frame that the encoder writes is the next frame that the
/// decoder gives, from a state after the image data in which no control
/// record waits: for every frame that the encoder takes, of the pixel
/// format of the header and the size that its control record gives,
/// provided that the codec unpacks what it has packed of the rows, and
/// that no further frame data chunk follows.
pub proof fn lemma_later_frame(st: EncoderView, picture: FrameView, from: StepView, rest: Seq<u8>)
    requires
        st.begun,
        st.refusal(picture) is None,
        picture.control matches Some(c) ==> c.width == picture.width && c.height
            == picture.height,
        inflated(st.stream(picture)) == picture.pack(),
        !from.done,
        from.image_seen,
        from.header matches Some(h) && h.color_type == picture.color_type && h.bit_depth
            == picture.bit_depth && h.interlace == picture.interlace,
        from.upcoming == st.chunks(picture) + rest,
        !begins_with(rest, FRAME_DATA@),
    ensures
        from.advance() == (
            Some(Ok::<FrameView, DecoderError>(shown(st, picture))),
            StepView { upcoming: rest, control: None, ..from },
        ),
{
    let record = numbered(picture.control->Some_0, st.sequence);
    let control = frame(FRAME_CONTROL@, record.payload());
    let data = sequence_frames(st.stream(picture), st.limit as int, st.sequence + 1);
    lemma_concat_assoc(control, data, rest);
    lemma_pass_over(from, ChunkView::FrameControl(record), data + rest);
    let s1 = StepView { upcoming: data + rest, control: Some(record), ..from };
    assert(from.advance() == s1.advance()) by {
        assert(from == (StepView { upcoming: control + (data + rest), ..from }));
    }
    lemma_deliver_sequence(s1, st.stream(picture), st.limit, st.sequence + 1, rest);
    let header = from.header->Some_0;
    let given = shown(st, picture);
    lemma_frame_round_trip(given);
    assert(FrameView::unpack(header, Some(record), picture.pack()->Some_0) == FrameView::unpack(
        given.header(),
        Some(record),
        picture.pack()->Some_0,
    ));
}

} // verus!
