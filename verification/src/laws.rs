//! What holds of decoding and encoding together.

use vstd::prelude::*;
use crate::checksum::{crc32, flip_bit, lemma_crc32_one_byte, lemma_flip_bit_differs};
use crate::chunk::{
    fixed_length, lemma_fixed_length, lemma_parsed, lemma_payload_round_trip, ChunkView,
    Physical, UnknownView,
};
use crate::config::Config;
use crate::consts::{IMAGE_DATA, PHYSICAL, SIGNATURE};
use crate::decoder::read_signature;
use crate::document::{
    decode_rest, decode_spec, encode_chunks, encode_spec, holds_image_data, joined, Assembly,
    DocumentView,
};
use crate::encoder::data_frames;
use crate::error::DecoderError;
use crate::tag::{ancillary, kind_of, lemma_catalog, ChunkKind};
use crate::wire::{be32, frame, lemma_read_frame, lemma_word32_be32, read_frame, word32, RawChunk};
use crate::zlib::deflated;

verus! {

/// Joining three runs of bytes does not depend on which two are joined
/// first.
pub proof fn lemma_concat_assoc(a: Seq<u8>, b: Seq<u8>, c: Seq<u8>)
    ensures
        (a + b) + c == a + (b + c),
{
    assert((a + b) + c =~= a + (b + c));
}

/// After the signature, decoding goes on with the chunks.
pub proof fn lemma_signature(s: Seq<u8>)
    ensures
        decode_spec(SIGNATURE@ + s) == decode_rest(Assembly::start(), s),
{
    let bytes = SIGNATURE@ + s;
    assert(bytes.take(8) =~= SIGNATURE@);
    assert(bytes.skip(8) =~= s);
    assert(read_signature(bytes) is Ok);
}

/// Decoding a framed chunk followed by `rest` is taking the chunk and
/// decoding `rest`.
pub proof fn lemma_step(st: Assembly, tag: Seq<u8>, payload: Seq<u8>, rest: Seq<u8>)
    requires
        tag.len() == 4,
        payload.len() <= u32::MAX,
    ensures
        decode_rest(st, frame(tag, payload) + rest) == (if st.ended {
            Err::<DocumentView, DecoderError>(DecoderError::Order)
        } else {
            match st.accept(tag, payload) {
                Err(e) => Err::<DocumentView, DecoderError>(e),
                Ok(next) => decode_rest(next, rest),
            }
        }),
{
    reveal(decode_rest);
    lemma_read_frame(tag, payload, rest);
    assert((frame(tag, payload) + rest).len() > 0);
}

/// One image data chunk adds its payload to the stream that is being
/// collected.
pub proof fn lemma_collect_one(st: Assembly, piece: Seq<u8>, rest: Seq<u8>)
    requires
        st.chunks.len() > 0,
        !st.ended,
        !st.closed,
        piece.len() <= u32::MAX,
    ensures
        decode_rest(st, frame(IMAGE_DATA@, piece) + rest) == decode_rest(
            Assembly { stream: Some(joined(st.stream, piece)), ..st },
            rest,
        ),
{
    lemma_catalog();
    lemma_step(st, IMAGE_DATA@, piece, rest);
}

/// A stream written as image data chunks under a limit is collected whole.
pub proof fn lemma_collect(st: Assembly, stream: Seq<u8>, limit: u32, rest: Seq<u8>)
    requires
        st.chunks.len() > 0,
        !st.ended,
        !st.closed,
        limit >= 1,
    ensures
        decode_rest(st, data_frames(IMAGE_DATA@, stream, limit as int) + rest) == decode_rest(
            Assembly { stream: Some(joined(st.stream, stream)), ..st },
            rest,
        ),
    decreases stream.len(),
{
    if stream.len() <= limit {
        lemma_collect_one(st, stream, rest);
    } else {
        let first = stream.take(limit as int);
        let more = stream.skip(limit as int);
        let tail = data_frames(IMAGE_DATA@, more, limit as int);
        let next = Assembly { stream: Some(joined(st.stream, first)), ..st };
        let whole = data_frames(IMAGE_DATA@, stream, limit as int);
        assert(whole == frame(IMAGE_DATA@, first) + tail);
        lemma_concat_assoc(frame(IMAGE_DATA@, first), tail, rest);
        lemma_collect_one(st, first, tail + rest);
        lemma_collect(next, more, limit, rest);
        assert(first + more =~= stream);
        match st.stream {
            None => {},
            Some(s) => lemma_concat_assoc(s, first, more),
        }
    }
}

/// The state of a decoder that has read the first `k` records of `d` as
/// they are written at `level`: image data just read is still being
/// collected.
pub open spec fn state_at(d: DocumentView, level: u8, k: int) -> Assembly {
    if k > 0 && d.chunks[k - 1] is ImageData {
        Assembly {
            chunks: d.chunks.take(k - 1),
            stream: Some(deflated(d.chunks[k - 1]->ImageData_0, level)),
            closed: false,
            ended: false,
        }
    } else {
        Assembly {
            chunks: d.chunks.take(k),
            stream: None,
            closed: holds_image_data(d.chunks.take(k)),
            ended: k > 0 && d.chunks[k - 1] is ImageEnd,
        }
    }
}

/// Records without image data hold none.
proof fn lemma_holds_none(chunks: Seq<ChunkView>)
    requires
        forall|i: int| 0 <= i < chunks.len() ==> (#[trigger] chunks[i]) !is ImageData,
    ensures
        !holds_image_data(chunks),
    decreases chunks.len(),
{
    if chunks.len() > 0 {
        lemma_holds_none(chunks.drop_last());
    }
}

/// Records of which one is image data hold some.
proof fn lemma_holds_some(chunks: Seq<ChunkView>, at: int)
    requires
        0 <= at < chunks.len(),
        chunks[at] is ImageData,
    ensures
        holds_image_data(chunks),
    decreases chunks.len(),
{
    if at < chunks.len() - 1 {
        lemma_holds_some(chunks.drop_last(), at);
    }
}

/// From the state after `k` records, the rest of the written document
/// decodes to the document.
proof fn lemma_resume(d: DocumentView, config: Config, k: int)
    requires
        d.wf(),
        config.valid(),
        d.packs_back(config.level),
        0 <= k <= d.chunks.len(),
    ensures
        decode_rest(
            state_at(d, config.level, k),
            encode_chunks(d.chunks.skip(k), config.level, config.chunk_limit),
        ) == Ok::<DocumentView, DecoderError>(d),
    decreases d.chunks.len() - k,
{
    let n = d.chunks.len() as int;
    let level = config.level;
    let limit = config.chunk_limit;
    let st = state_at(d, level, k);
    let tail = d.chunks.skip(k);
    lemma_catalog();
    assert(d.chunks[0] is ImageHeader);
    if k > 0 && d.chunks[k - 1] is ImageData {
        assert(k - 1 >= 1);
        assert(st.chunks.len() == k - 1);
        assert(d.chunks.take(k - 1).push(d.chunks[k - 1]) =~= d.chunks.take(k));
        assert(crate::document::chunk_packs_back(d.chunks[k - 1], level));
    }
    if k == n {
        reveal(decode_rest);
        assert(tail =~= Seq::<ChunkView>::empty());
        assert(encode_chunks(tail, level, limit) =~= Seq::<u8>::empty());
        assert(d.chunks.take(n) =~= d.chunks);
        let closed = st.close();
        assert(closed is Ok);
        assert(closed->Ok_0.chunks =~= d.chunks);
    } else {
        let c = d.chunks[k];
        let rest = encode_chunks(d.chunks.skip(k + 1), level, limit);
        assert(tail.drop_first() =~= d.chunks.skip(k + 1));
        assert(tail[0] == c);
        assert(encode_chunks(tail, level, limit) == c.frames(level, limit) + rest);
        assert(d.chunks.take(k).push(c) =~= d.chunks.take(k + 1));
        assert(d.chunks.take(k + 1).drop_last() =~= d.chunks.take(k));
        lemma_resume(d, config, k + 1);
        if k > 0 {
            assert(d.chunks[k - 1] !is ImageEnd);
        }
        assert(!st.ended);
        if c is ImageData {
            assert(k >= 1);
            assert(d.chunks[k - 1] !is ImageData);
            assert forall|i: int| 0 <= i < k implies (#[trigger] d.chunks.take(k)[i]) !is ImageData by {
                assert(d.chunks[i] !is ImageData);
            }
            lemma_holds_none(d.chunks.take(k));
            lemma_collect(st, deflated(c->ImageData_0, level), limit, rest);
        } else {
            lemma_payload_round_trip(c);
            lemma_step(st, c.tag(), c.payload(), rest);
            if k == 0 {
                assert(st.chunks.len() == 0);
                assert(st.chunks.push(c) =~= d.chunks.take(1));
                assert(d.chunks.take(0) =~= Seq::<ChunkView>::empty());
                lemma_holds_none(d.chunks.take(1));
            } else {
                assert(st.chunks.len() > 0);
                assert(c !is ImageHeader);
                assert(kind_of(c.tag()) != ChunkKind::ImageHeader);
                assert(kind_of(c.tag()) != ChunkKind::ImageData);
                if d.chunks[k - 1] is ImageData {
                    lemma_holds_some(d.chunks.take(k + 1), k - 1);
                }
            }
            assert(st.accept(c.tag(), c.payload()) == Ok::<Assembly, DecoderError>(
                state_at(d, level, k + 1),
            ));
        }
    }
}

/// Reading back what was written gives the document: for every document
/// that decoding can give and every choice of level and limit in range,
/// provided that the codec unpacks what it has packed of the image data.
pub proof fn lemma_round_trip(d: DocumentView, config: Config)
    requires
        d.wf(),
        config.valid(),
        d.packs_back(config.level),
    ensures
        decode_spec(encode_spec(d, config)) == Ok::<DocumentView, DecoderError>(d),
{
    lemma_resume(d, config, 0);
    lemma_signature(encode_chunks(d.chunks, config.level, config.chunk_limit));
    assert(d.chunks.skip(0) =~= d.chunks);
    assert(d.chunks.take(0) =~= Seq::<ChunkView>::empty());
    assert(state_at(d, config.level, 0) == Assembly::start());
}

/// What holds of the state of an assembler at every moment.
pub open spec fn sound(st: Assembly) -> bool {
    let n = st.chunks.len();
    &&& n == 0 ==> st.stream is None && !st.closed && !st.ended
    &&& n > 0 ==> st.chunks[0] is ImageHeader
    &&& forall|i: int| 0 <= i < n ==> (#[trigger] st.chunks[i]).valid()
    &&& forall|i: int| 1 <= i < n ==> (#[trigger] st.chunks[i]) !is ImageHeader
    &&& forall|i: int, j: int|
        0 <= i < j < n ==> !((#[trigger] st.chunks[i]) is ImageData && (
        #[trigger] st.chunks[j]) is ImageData)
    &&& forall|i: int| 0 <= i < n - 1 ==> (#[trigger] st.chunks[i]) !is ImageEnd
    &&& !st.closed ==> forall|i: int| 0 <= i < n ==> (#[trigger] st.chunks[i]) !is ImageData
    &&& st.stream is Some ==> !st.closed && !st.ended
    &&& !st.ended && n > 0 ==> st.chunks[n - 1] !is ImageEnd
}

/// Closing the image data keeps the state sound.
proof fn lemma_close_sound(st: Assembly)
    requires
        sound(st),
        st.close() is Ok,
    ensures
        sound(st.close()->Ok_0),
        st.close()->Ok_0.stream is None,
        st.close()->Ok_0.ended == st.ended,
        st.close()->Ok_0.chunks.len() >= st.chunks.len(),
{
}

/// Taking a chunk keeps the state sound.
proof fn lemma_accept_sound(st: Assembly, tag: Seq<u8>, payload: Seq<u8>)
    requires
        sound(st),
        tag.len() == 4,
        payload.len() <= u32::MAX,
        st.accept(tag, payload) is Ok,
    ensures
        sound(st.accept(tag, payload)->Ok_0),
{
    let kind = kind_of(tag);
    if st.chunks.len() == 0 {
        lemma_parsed(tag, payload);
    } else if kind == ChunkKind::ImageData {
    } else {
        lemma_close_sound(st);
        lemma_parsed(tag, payload);
    }
}

/// From a sound state, what decoding gives is a well-formed document.
proof fn lemma_rest_well_formed(st: Assembly, s: Seq<u8>)
    requires
        sound(st),
        decode_rest(st, s) is Ok,
    ensures
        decode_rest(st, s)->Ok_0.wf(),
    decreases s.len(),
{
    reveal(decode_rest);
    if s.len() == 0 {
        lemma_close_sound(st);
    } else {
        let raw = read_frame(s)->Ok_0;
        lemma_accept_sound(st, raw.tag, raw.payload);
        lemma_rest_well_formed(
            st.accept(raw.tag, raw.payload)->Ok_0,
            s.skip(raw.payload.len() as int + 12),
        );
    }
}

/// Every document that decoding gives is well formed.
pub proof fn lemma_decoded_well_formed(bytes: Seq<u8>)
    requires
        decode_spec(bytes) is Ok,
    ensures
        decode_spec(bytes)->Ok_0.wf(),
{
    lemma_rest_well_formed(Assembly::start(), bytes.skip(8));
}

/// Every well-formed document can be written under choices in range.
pub proof fn lemma_well_formed_fits(d: DocumentView, config: Config)
    requires
        d.wf(),
        config.valid(),
    ensures
        d.fits(config),
{
    assert forall|i: int| 0 <= i < d.chunks.len() implies (#[trigger] d.chunks[i]).refusal(
        config.level,
        config.chunk_limit,
    ) is None by {
        let c = d.chunks[i];
        assert(c.valid());
        if c !is ImageData {
            lemma_payload_round_trip(c);
        }
    }
}

/// Whether each of `chunks` can be framed: a tag of four bytes, and a
/// payload that a length field can count.
pub open spec fn framable(chunks: Seq<RawChunk>) -> bool {
    forall|i: int|
        0 <= i < chunks.len() ==> (#[trigger] chunks[i]).tag.len() == 4 && chunks[i].payload.len()
            <= u32::MAX
}

/// The bytes of `chunks`, framed one after the other.
pub open spec fn frames_of(chunks: Seq<RawChunk>) -> Seq<u8>
    decreases chunks.len(),
{
    if chunks.len() == 0 {
        Seq::empty()
    } else {
        frame(chunks[0].tag, chunks[0].payload) + frames_of(chunks.drop_first())
    }
}

/// The state after `chunks` were taken one after the other.
pub open spec fn run(st: Assembly, chunks: Seq<RawChunk>) -> Result<Assembly, DecoderError>
    decreases chunks.len(),
{
    if chunks.len() == 0 {
        Ok(st)
    } else if st.ended {
        Err(DecoderError::Order)
    } else {
        match st.accept(chunks[0].tag, chunks[0].payload) {
            Err(e) => Err(e),
            Ok(next) => run(next, chunks.drop_first()),
        }
    }
}

/// Decoding framed chunks followed by `rest` is taking the chunks and
/// decoding `rest`.
pub proof fn lemma_run(st: Assembly, chunks: Seq<RawChunk>, rest: Seq<u8>)
    requires
        framable(chunks),
    ensures
        decode_rest(st, frames_of(chunks) + rest) == match run(st, chunks) {
            Err(e) => Err::<DocumentView, DecoderError>(e),
            Ok(next) => decode_rest(next, rest),
        },
    decreases chunks.len(),
{
    if chunks.len() == 0 {
        assert(frames_of(chunks) + rest =~= rest);
    } else {
        let first = chunks[0];
        let tail = chunks.drop_first();
        assert(framable(tail)) by {
            assert forall|i: int| 0 <= i < tail.len() implies (#[trigger] tail[i]).tag.len() == 4
                && tail[i].payload.len() <= u32::MAX by {
                assert(tail[i] == chunks[i + 1]);
            }
        }
        lemma_concat_assoc(frame(first.tag, first.payload), frames_of(tail), rest);
        lemma_step(st, first.tag, first.payload, frames_of(tail) + rest);
        if !st.ended {
            match st.accept(first.tag, first.payload) {
                Err(e) => {},
                Ok(next) => lemma_run(next, tail, rest),
            }
        }
    }
}

/// A file laid out as the signature, framed chunks, and what follows
/// them.
pub open spec fn file(before: Seq<RawChunk>, then: Seq<u8>) -> Seq<u8> {
    SIGNATURE@ + (frames_of(before) + then)
}

/// Decoding such a file is taking the chunks and decoding what follows.
pub proof fn lemma_file(before: Seq<RawChunk>, then: Seq<u8>)
    requires
        framable(before),
    ensures
        decode_spec(file(before, then)) == match run(Assembly::start(), before) {
            Err(e) => Err::<DocumentView, DecoderError>(e),
            Ok(next) => decode_rest(next, then),
        },
{
    lemma_signature(frames_of(before) + then);
    lemma_run(Assembly::start(), before, then);
}

/// The chunk of type `tag` with `payload` in which bit `bit` of byte `at`
/// of tag and payload is inverted, while the checksum is left as it was.
pub open spec fn damaged(tag: Seq<u8>, payload: Seq<u8>, at: int, bit: u8) -> Seq<u8> {
    let covered = tag + payload;
    be32(payload.len() as u32) + covered.update(at, flip_bit(covered[at], bit)) + be32(
        crc32(covered),
    )
}

/// The damaged chunk is the chunk with that one bit inverted, and a file
/// with the damaged chunk is the file with that one bit inverted.
pub proof fn lemma_damaged(
    before: Seq<RawChunk>,
    tag: Seq<u8>,
    payload: Seq<u8>,
    after: Seq<u8>,
    at: int,
    bit: u8,
)
    requires
        0 <= at < tag.len() + payload.len(),
    ensures
        damaged(tag, payload, at, bit) == frame(tag, payload).update(
            at + 4,
            flip_bit(frame(tag, payload)[at + 4], bit),
        ),
        ({
            let whole = file(before, frame(tag, payload) + after);
            let place = 8 + frames_of(before).len() + 4 + at;
            file(before, damaged(tag, payload, at, bit) + after) == whole.update(
                place,
                flip_bit(whole[place], bit),
            )
        }),
{
    let whole = file(before, frame(tag, payload) + after);
    let place = 8 + frames_of(before).len() + 4 + at;
    assert(damaged(tag, payload, at, bit) =~= frame(tag, payload).update(
        at + 4,
        flip_bit(frame(tag, payload)[at + 4], bit),
    ));
    assert(file(before, damaged(tag, payload, at, bit) + after) =~= whole.update(
        place,
        flip_bit(whole[place], bit),
    ));
}

/// One inverted bit in the type tag or the payload of a chunk, with the
/// checksum left as it was, makes decoding fail with a checksum error,
/// wherever the chunks before it are taken and the end marker is not
/// among them: for any byte of the chunk's tag and payload, and any bit of
/// that byte.
pub proof fn lemma_flipped_bit(
    before: Seq<RawChunk>,
    tag: Seq<u8>,
    payload: Seq<u8>,
    after: Seq<u8>,
    at: int,
    bit: u8,
)
    requires
        framable(before),
        tag.len() == 4,
        payload.len() <= u32::MAX,
        0 <= at < 4 + payload.len(),
        bit < 8,
        run(Assembly::start(), before) matches Ok(st) && !st.ended,
    ensures
        decode_spec(file(before, damaged(tag, payload, at, bit) + after)) == Err::<
            DocumentView,
            DecoderError,
        >(DecoderError::Checksum),
{
    let covered = tag + payload;
    let changed = covered.update(at, flip_bit(covered[at], bit));
    let len = payload.len() as int;
    let bad = damaged(tag, payload, at, bit) + after;
    lemma_file(before, bad);
    lemma_flip_bit_differs(covered[at], bit);
    lemma_crc32_one_byte(covered, changed, at);
    lemma_word32_be32(len as u32);
    lemma_word32_be32(crc32(covered));
    assert(bad.len() == len + 12 + after.len());
    assert(word32(bad) == len as u32);
    assert(bad.subrange(4, len + 8) =~= changed);
    assert(word32(bad.skip(len + 8)) == word32(be32(crc32(covered))));
    assert(read_frame(bad) == Err::<RawChunk, DecoderError>(DecoderError::Checksum));
    reveal(decode_rest);
}

/// In a file that decodes, one inverted bit in the type tag or the
/// payload of any chunk, with the checksum left as it was, makes decoding
/// fail with a checksum error.
pub proof fn lemma_flipped_bit_in_file(
    before: Seq<RawChunk>,
    tag: Seq<u8>,
    payload: Seq<u8>,
    after: Seq<u8>,
    at: int,
    bit: u8,
)
    requires
        framable(before),
        tag.len() == 4,
        payload.len() <= u32::MAX,
        0 <= at < 4 + payload.len(),
        bit < 8,
        decode_spec(file(before, frame(tag, payload) + after)) is Ok,
    ensures
        ({
            let whole = file(before, frame(tag, payload) + after);
            let place = 8 + frames_of(before).len() + 4 + at;
            decode_spec(whole.update(place, flip_bit(whole[place], bit))) == Err::<
                DocumentView,
                DecoderError,
            >(DecoderError::Checksum)
        }),
{
    lemma_file(before, frame(tag, payload) + after);
    let st = run(Assembly::start(), before)->Ok_0;
    lemma_step(st, tag, payload, after);
    lemma_flipped_bit(before, tag, payload, after, at, bit);
    lemma_damaged(before, tag, payload, after, at, bit);
}

/// The image data chunks that carry `pieces`, one piece each.
pub open spec fn image_frames(pieces: Seq<Seq<u8>>) -> Seq<u8>
    decreases pieces.len(),
{
    if pieces.len() == 0 {
        Seq::empty()
    } else {
        frame(IMAGE_DATA@, pieces[0]) + image_frames(pieces.drop_first())
    }
}

/// The pieces joined in order.
pub open spec fn flat(pieces: Seq<Seq<u8>>) -> Seq<u8>
    decreases pieces.len(),
{
    if pieces.len() == 0 {
        Seq::empty()
    } else {
        pieces[0] + flat(pieces.drop_first())
    }
}

/// From any state, image data in pieces decodes as the same data in one
/// chunk.
proof fn lemma_pieces(st: Assembly, pieces: Seq<Seq<u8>>, rest: Seq<u8>)
    requires
        pieces.len() >= 1,
        forall|i: int| 0 <= i < pieces.len() ==> (#[trigger] pieces[i]).len() <= u32::MAX,
        flat(pieces).len() <= u32::MAX,
    ensures
        decode_rest(st, image_frames(pieces) + rest) == decode_rest(
            st,
            frame(IMAGE_DATA@, flat(pieces)) + rest,
        ),
    decreases pieces.len(),
{
    let first = pieces[0];
    let tail = pieces.drop_first();
    lemma_catalog();
    if pieces.len() == 1 {
        assert(tail =~= Seq::<Seq<u8>>::empty());
        assert(flat(tail) =~= Seq::<u8>::empty());
        assert(image_frames(tail) =~= Seq::<u8>::empty());
        assert(flat(pieces) =~= first);
        assert(image_frames(pieces) =~= frame(IMAGE_DATA@, first));
    } else {
        assert forall|i: int| 0 <= i < tail.len() implies (#[trigger] tail[i]).len()
            <= u32::MAX by {
            assert(tail[i] == pieces[i + 1]);
        }
        assert(flat(pieces) == first + flat(tail));
        lemma_concat_assoc(frame(IMAGE_DATA@, first), image_frames(tail), rest);
        lemma_step(st, IMAGE_DATA@, first, image_frames(tail) + rest);
        lemma_step(st, IMAGE_DATA@, flat(pieces), rest);
        if !st.ended {
            match st.accept(IMAGE_DATA@, first) {
                Err(e) => {},
                Ok(next) => {
                    lemma_pieces(next, tail, rest);
                    lemma_step(next, IMAGE_DATA@, flat(tail), rest);
                    match st.stream {
                        None => {},
                        Some(s) => lemma_concat_assoc(s, first, flat(tail)),
                    }
                },
            }
        }
    }
}

/// Image data cut into any number of consecutive chunks, at any places,
/// decodes as the same data in a single chunk.
pub proof fn lemma_reassembly(before: Seq<RawChunk>, pieces: Seq<Seq<u8>>, after: Seq<u8>)
    requires
        framable(before),
        pieces.len() >= 1,
        forall|i: int| 0 <= i < pieces.len() ==> (#[trigger] pieces[i]).len() <= u32::MAX,
        flat(pieces).len() <= u32::MAX,
    ensures
        decode_spec(file(before, image_frames(pieces) + after)) == decode_spec(
            file(before, frame(IMAGE_DATA@, flat(pieces)) + after),
        ),
{
    lemma_file(before, image_frames(pieces) + after);
    lemma_file(before, frame(IMAGE_DATA@, flat(pieces)) + after);
    match run(Assembly::start(), before) {
        Err(e) => {},
        Ok(st) => lemma_pieces(st, pieces, after),
    }
}

/// What decoding gives begins with the records that were assembled
/// before.
proof fn lemma_kept(st: Assembly, s: Seq<u8>)
    requires
        decode_rest(st, s) is Ok,
    ensures
        decode_rest(st, s)->Ok_0.chunks.len() >= st.chunks.len(),
        decode_rest(st, s)->Ok_0.chunks.take(st.chunks.len() as int) == st.chunks,
    decreases s.len(),
{
    reveal(decode_rest);
    let d = decode_rest(st, s)->Ok_0;
    if s.len() == 0 {
        assert(d.chunks.take(st.chunks.len() as int) =~= st.chunks);
    } else {
        let raw = read_frame(s)->Ok_0;
        let next = st.accept(raw.tag, raw.payload)->Ok_0;
        lemma_kept(next, s.skip(raw.payload.len() as int + 12));
        assert(next.chunks.len() >= st.chunks.len());
        assert(next.chunks.take(st.chunks.len() as int) =~= st.chunks);
        assert(d.chunks.take(st.chunks.len() as int) =~= d.chunks.take(
            next.chunks.len() as int,
        ).take(st.chunks.len() as int));
    }
}

/// A chunk of a type that the catalog does not hold and whose tag is
/// critical makes decoding fail, wherever it stands; where the chunks
/// before it were taken, with `UnknownCritical`.
pub proof fn lemma_unknown_critical(
    before: Seq<RawChunk>,
    tag: Seq<u8>,
    payload: Seq<u8>,
    after: Seq<u8>,
)
    requires
        framable(before),
        tag.len() == 4,
        payload.len() <= u32::MAX,
        kind_of(tag) == ChunkKind::Unknown,
        !ancillary(tag),
    ensures
        decode_spec(file(before, frame(tag, payload) + after)) is Err,
        run(Assembly::start(), before) matches Ok(st) && st.chunks.len() > 0 && !st.ended
            && st.close() is Ok ==> decode_spec(file(before, frame(tag, payload) + after))
            == Err::<DocumentView, DecoderError>(DecoderError::UnknownCritical),
{
    lemma_file(before, frame(tag, payload) + after);
    match run(Assembly::start(), before) {
        Err(e) => {},
        Ok(st) => lemma_step(st, tag, payload, after),
    }
}

/// A chunk of a type that the catalog does not hold and whose tag is
/// ancillary is kept as it is: where the file decodes, the document holds
/// the chunk's tag and payload unchanged, after the records of the chunks
/// before it.
pub proof fn lemma_unknown_ancillary(
    before: Seq<RawChunk>,
    tag: Seq<u8>,
    payload: Seq<u8>,
    after: Seq<u8>,
)
    requires
        framable(before),
        tag.len() == 4,
        payload.len() <= u32::MAX,
        kind_of(tag) == ChunkKind::Unknown,
        ancillary(tag),
        decode_spec(file(before, frame(tag, payload) + after)) is Ok,
    ensures
        ({
            let d = decode_spec(file(before, frame(tag, payload) + after))->Ok_0;
            let at = run(Assembly::start(), before)->Ok_0.close()->Ok_0.chunks.len() as int;
            &&& run(Assembly::start(), before) is Ok
            &&& run(Assembly::start(), before)->Ok_0.close() is Ok
            &&& at < d.chunks.len()
            &&& d.chunks[at] == ChunkView::Unknown(UnknownView { tag, data: payload })
        }),
{
    lemma_file(before, frame(tag, payload) + after);
    let st = run(Assembly::start(), before)->Ok_0;
    lemma_step(st, tag, payload, after);
    let next = st.accept(tag, payload)->Ok_0;
    lemma_kept(next, after);
    let d = decode_rest(next, after)->Ok_0;
    let at = st.close()->Ok_0.chunks.len() as int;
    assert(next.chunks[at] == ChunkView::Unknown(UnknownView { tag, data: payload }));
    assert(d.chunks.take(next.chunks.len() as int)[at] == d.chunks[at]);
}

/// Physical dimensions whose unit flag is neither 0 nor 1 make decoding
/// fail with a unit error; with the flag 0 the record says that the unit
/// is unknown, with 1 that it is the meter. This holds wherever the chunk
/// stands after the header and before the end marker, provided that image
/// data collected before it unpacks.
pub proof fn lemma_physical_units(before: Seq<RawChunk>, payload: Seq<u8>, after: Seq<u8>)
    requires
        framable(before),
        payload.len() == 9,
        run(Assembly::start(), before) matches Ok(st) && st.chunks.len() > 0 && !st.ended
            && st.close() is Ok,
    ensures
        payload[8] > 1 ==> decode_spec(file(before, frame(PHYSICAL@, payload) + after)) == Err::<
            DocumentView,
            DecoderError,
        >(DecoderError::PhysUnits),
        payload[8] <= 1 ==> ({
            let st = run(Assembly::start(), before)->Ok_0.close()->Ok_0;
            let record = Physical {
                ppu_x: word32(payload),
                ppu_y: word32(payload.skip(4)),
                is_meter: payload[8] == 1,
            };
            decode_spec(file(before, frame(PHYSICAL@, payload) + after)) == decode_rest(
                Assembly { chunks: st.chunks.push(ChunkView::Physical(record)), ..st },
                after,
            )
        }),
{
    lemma_catalog();
    lemma_file(before, frame(PHYSICAL@, payload) + after);
    let st = run(Assembly::start(), before)->Ok_0;
    lemma_step(st, PHYSICAL@, payload, after);
}

/// A chunk whose declared length runs past the end of the file makes
/// decoding fail with `Eof`: nothing is read beyond the end, and nothing
/// is made of a payload that is not all there.
pub proof fn lemma_cut_short(before: Seq<RawChunk>, then: Seq<u8>)
    requires
        framable(before),
        0 < then.len(),
        then.len() < 8 || then.len() < word32(then) + 12,
        run(Assembly::start(), before) matches Ok(st) && !st.ended,
    ensures
        decode_spec(file(before, then)) == Err::<DocumentView, DecoderError>(DecoderError::Eof),
{
    lemma_file(before, then);
    reveal(decode_rest);
}

/// A chunk of a kind with a fixed layout whose declared length is not
/// that of the layout makes decoding fail, wherever it stands.
pub proof fn lemma_wrong_length(
    before: Seq<RawChunk>,
    tag: Seq<u8>,
    payload: Seq<u8>,
    after: Seq<u8>,
)
    requires
        framable(before),
        tag.len() == 4,
        payload.len() <= u32::MAX,
        fixed_length(kind_of(tag)) matches Some(n) && payload.len() != n,
    ensures
        decode_spec(file(before, frame(tag, payload) + after)) is Err,
{
    lemma_file(before, frame(tag, payload) + after);
    lemma_fixed_length(tag, payload);
    match run(Assembly::start(), before) {
        Err(e) => {},
        Ok(st) => lemma_step(st, tag, payload, after),
    }
}

} // verus!
