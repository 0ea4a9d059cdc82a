use png_pong::chunk::{
    Chunk, ColorType, FrameData, ImageData, ImageEnd, ImageHeader, Physical, Unknown,
};
use png_pong::config::Config;
use png_pong::document::{Assembler, Document};
use png_pong::decoder::Parser;
use png_pong::error::{DecoderError, EncoderError};
use png_pong::zlib::compress;

fn crc(data: &[u8]) -> u32 {
    let mut reg = 0xFFFF_FFFFu32;
    for byte in data {
        reg ^= *byte as u32;
        for _ in 0..8 {
            reg = if reg & 1 == 1 { (reg >> 1) ^ 0xEDB8_8320 } else { reg >> 1 };
        }
    }
    !reg
}

fn framed(tag: &[u8; 4], payload: &[u8]) -> Vec<u8> {
    let mut out = (payload.len() as u32).to_be_bytes().to_vec();
    out.extend_from_slice(tag);
    out.extend_from_slice(payload);
    let mut covered = tag.to_vec();
    covered.extend_from_slice(payload);
    out.extend_from_slice(&crc(&covered).to_be_bytes());
    out
}

fn file(chunks: &[Vec<u8>]) -> Vec<u8> {
    let mut out = vec![137, 80, 78, 71, 13, 10, 26, 10];
    for chunk in chunks {
        out.extend_from_slice(chunk);
    }
    out
}

const HEADER: [u8; 13] = [0, 0, 0, 2, 0, 0, 0, 2, 8, 0, 0, 0, 0];
const PHYS: [u8; 9] = [0, 0, 11, 19, 0, 0, 11, 19, 1];
const STREAM: [u8; 14] = [120, 156, 99, 224, 18, 97, 144, 211, 0, 0, 0, 236, 0, 101];
const RAW: [u8; 6] = [0, 10, 20, 0, 30, 40];

const SMALL: [u8; 92] = [
    137, 80, 78, 71, 13, 10, 26, 10, 0, 0, 0, 13, 73, 72, 68, 82, 0, 0, 0, 2, 0, 0, 0, 2, 8, 0,
    0, 0, 0, 87, 221, 82, 248, 0, 0, 0, 9, 112, 72, 89, 115, 0, 0, 11, 19, 0, 0, 11, 19, 1, 0,
    154, 156, 24, 0, 0, 0, 14, 73, 68, 65, 84, 120, 156, 99, 224, 18, 97, 144, 211, 0, 0, 0, 236,
    0, 101, 224, 248, 92, 211, 0, 0, 0, 0, 73, 69, 78, 68, 174, 66, 96, 130,
];

fn header() -> ImageHeader {
    ImageHeader { width: 2, height: 2, color_type: ColorType::Grey, bit_depth: 8, interlace: false }
}

fn small() -> Document {
    Document {
        header: header(),
        chunks: vec![
            Chunk::ImageHeader(header()),
            Chunk::Physical(Physical { ppu_x: 2835, ppu_y: 2835, is_meter: true }),
            Chunk::ImageData(ImageData::with_data(RAW.to_vec())),
            Chunk::ImageEnd(ImageEnd),
        ],
    }
}

#[test]
fn decode_header_physical_data_end() {
    let doc = Document::decode(&SMALL).unwrap();
    assert_eq!(doc.header, header());
    assert_eq!(doc.chunks.len(), 4);
    assert_eq!(
        doc.chunks[1],
        Chunk::Physical(Physical { ppu_x: 2835, ppu_y: 2835, is_meter: true })
    );
    assert_eq!(doc, small());
}

#[test]
fn decode_agrees_with_hand_built_file() {
    let bytes = file(&[
        framed(b"IHDR", &HEADER),
        framed(b"pHYs", &PHYS),
        framed(b"IDAT", &STREAM),
        framed(b"IEND", &[]),
    ]);
    assert_eq!(bytes, SMALL.to_vec());
}

#[test]
fn encode_then_decode_gives_the_document() {
    let doc = small();
    for level in 0..=10 {
        for chunk_limit in [1, 2, 3, 5, 14, 100, 0x7FFF_FFFF] {
            let bytes = doc.encode(&Config { level, chunk_limit }).unwrap();
            assert_eq!(Document::decode(&bytes), Ok(doc.clone()));
        }
    }
}

#[test]
fn decode_then_encode_then_decode() {
    let doc = Document::decode(&SMALL).unwrap();
    let bytes = doc.encode(&Config::new()).unwrap();
    assert_eq!(Document::decode(&bytes), Ok(doc));
}

#[test]
fn encode_lays_out_signature_and_chunks() {
    let bytes = small().encode(&Config { level: 6, chunk_limit: 5 }).unwrap();
    let packed = compress(&RAW, 6).unwrap();
    let mut chunks = vec![framed(b"IHDR", &HEADER), framed(b"pHYs", &PHYS)];
    for piece in packed.chunks(5) {
        chunks.push(framed(b"IDAT", piece));
    }
    chunks.push(framed(b"IEND", &[]));
    assert!(packed.len() > 5);
    assert_eq!(bytes, file(&chunks));
}

#[test]
fn encode_refuses_choices_out_of_range() {
    let doc = small();
    assert_eq!(doc.encode(&Config { level: 11, chunk_limit: 5 }), Err(EncoderError::Level));
    assert_eq!(doc.encode(&Config { level: 11, chunk_limit: 0 }), Err(EncoderError::Level));
    assert_eq!(doc.encode(&Config { level: 6, chunk_limit: 0 }), Err(EncoderError::ChunkLimit));
    assert_eq!(
        doc.encode(&Config { level: 6, chunk_limit: 0x8000_0000 }),
        Err(EncoderError::ChunkLimit)
    );
    assert!(doc.encode(&Config { level: 10, chunk_limit: 0x7FFF_FFFF }).is_ok());
    assert!(doc.encode(&Config { level: 0, chunk_limit: 1 }).is_ok());
}

#[test]
fn config_default_is_middle_level_and_largest_chunks() {
    let config = Config::new();
    assert_eq!(config, Config { level: 6, chunk_limit: 0x7FFF_FFFF });
    assert_eq!(Config::default(), config);
    assert_eq!(config.check(), Ok(()));
    assert_eq!(Config { level: 11, chunk_limit: 0 }.check(), Err(EncoderError::Level));
    assert_eq!(Config { level: 10, chunk_limit: 0 }.check(), Err(EncoderError::ChunkLimit));
}

#[test]
fn every_flipped_bit_in_tag_or_payload_is_a_checksum_error() {
    let mut at = 8;
    while at < SMALL.len() {
        let len = u32::from_be_bytes([SMALL[at], SMALL[at + 1], SMALL[at + 2], SMALL[at + 3]])
            as usize;
        for byte in at + 4..at + 8 + len {
            for bit in 0..8 {
                let mut bad = SMALL.to_vec();
                bad[byte] ^= 1 << bit;
                assert_eq!(Document::decode(&bad), Err(DecoderError::Checksum));
            }
        }
        at += 12 + len;
    }
    assert_eq!(at, SMALL.len());
}

#[test]
fn flipped_bit_in_stored_checksum_is_a_checksum_error() {
    let mut bad = SMALL.to_vec();
    bad[50] ^= 0x10;
    assert_eq!(Document::decode(&bad), Err(DecoderError::Checksum));
}

#[test]
fn image_data_split_anywhere_decodes_the_same() {
    let whole = Document::decode(&SMALL).unwrap();
    for cut in 0..=STREAM.len() {
        let bytes = file(&[
            framed(b"IHDR", &HEADER),
            framed(b"pHYs", &PHYS),
            framed(b"IDAT", &STREAM[..cut]),
            framed(b"IDAT", &STREAM[cut..]),
            framed(b"IEND", &[]),
        ]);
        assert_eq!(Document::decode(&bytes), Ok(whole.clone()));
    }
}

#[test]
fn image_data_split_in_many_decodes_the_same() {
    let whole = Document::decode(&SMALL).unwrap();
    let mut chunks = vec![framed(b"IHDR", &HEADER), framed(b"pHYs", &PHYS)];
    for byte in STREAM {
        chunks.push(framed(b"IDAT", &[byte]));
    }
    chunks.push(framed(b"IEND", &[]));
    assert_eq!(Document::decode(&file(&chunks)), Ok(whole));
}

#[test]
fn physical_flag_other_than_zero_and_one_is_refused() {
    for flag in 0..=255u8 {
        let mut phys = PHYS;
        phys[8] = flag;
        let bytes = file(&[
            framed(b"IHDR", &HEADER),
            framed(b"pHYs", &phys),
            framed(b"IDAT", &STREAM),
            framed(b"IEND", &[]),
        ]);
        let doc = Document::decode(&bytes);
        if flag <= 1 {
            assert_eq!(
                doc.unwrap().chunks[1],
                Chunk::Physical(Physical { ppu_x: 2835, ppu_y: 2835, is_meter: flag == 1 })
            );
        } else {
            assert_eq!(doc, Err(DecoderError::PhysUnits));
        }
    }
}

#[test]
fn declared_length_past_the_end_is_refused() {
    for keep in 9..SMALL.len() {
        let doc = Document::decode(&SMALL[..keep]);
        if keep == 33 || keep == 54 || keep == 80 {
            assert!(doc.is_ok() || doc == Err(DecoderError::Zlib));
        } else {
            assert_eq!(doc, Err(DecoderError::Eof));
        }
    }
    let mut longer = SMALL.to_vec();
    longer[36] = 10;
    assert_eq!(Document::decode(&longer), Err(DecoderError::Checksum));
    let mut far = SMALL.to_vec();
    far[35] = 1;
    assert_eq!(Document::decode(&far), Err(DecoderError::Eof));
}

#[test]
fn declared_length_other_than_the_layout_is_refused() {
    for payload in [&PHYS[..8], &[0, 0, 11, 19, 0, 0, 11, 19, 1, 0][..]] {
        let bytes = file(&[
            framed(b"IHDR", &HEADER),
            framed(b"pHYs", payload),
            framed(b"IDAT", &STREAM),
            framed(b"IEND", &[]),
        ]);
        assert_eq!(Document::decode(&bytes), Err(DecoderError::ChunkLength));
    }
    let bytes = file(&[framed(b"IHDR", &HEADER[..12])]);
    assert_eq!(Document::decode(&bytes), Err(DecoderError::ChunkLength));
    let bytes = file(&[framed(b"IHDR", &HEADER), framed(b"IEND", &[1])]);
    assert_eq!(Document::decode(&bytes), Err(DecoderError::ChunkLength));
}

#[test]
fn stream_ends_without_end_marker() {
    let bytes = file(&[framed(b"IHDR", &HEADER), framed(b"IDAT", &STREAM)]);
    let doc = Document::decode(&bytes).unwrap();
    assert_eq!(
        doc.chunks,
        vec![Chunk::ImageHeader(header()), Chunk::ImageData(ImageData::with_data(RAW.to_vec()))]
    );
    let only = Document::decode(&file(&[framed(b"IHDR", &HEADER)])).unwrap();
    assert_eq!(only.chunks, vec![Chunk::ImageHeader(header())]);
}

#[test]
fn stream_without_header_is_cut_short() {
    assert_eq!(Document::decode(&file(&[])), Err(DecoderError::Eof));
    assert_eq!(Document::decode(&[]), Err(DecoderError::Eof));
    assert_eq!(Document::decode(&[137, 80, 78]), Err(DecoderError::Eof));
}

#[test]
fn stream_with_other_signature_is_refused() {
    let mut bytes = SMALL.to_vec();
    bytes[0] = 138;
    assert_eq!(Document::decode(&bytes), Err(DecoderError::Signature));
    assert_eq!(Document::decode(b"GIF89a.........."), Err(DecoderError::Signature));
}

#[test]
fn unknown_ancillary_chunk_is_kept() {
    let bytes = file(&[
        framed(b"IHDR", &HEADER),
        framed(b"teSt", b"hello"),
        framed(b"IDAT", &STREAM),
        framed(b"IEND", &[]),
    ]);
    let doc = Document::decode(&bytes).unwrap();
    assert_eq!(doc.chunks.len(), 4);
    assert_eq!(doc.chunks[1], Chunk::Unknown(Unknown { tag: *b"teSt", data: b"hello".to_vec() }));
    let again = doc.encode(&Config::new()).unwrap();
    assert_eq!(Document::decode(&again), Ok(doc));
}

#[test]
fn unknown_critical_chunk_is_refused() {
    let bytes = file(&[
        framed(b"IHDR", &HEADER),
        framed(b"TeSt", b"hello"),
        framed(b"IDAT", &STREAM),
        framed(b"IEND", &[]),
    ]);
    assert_eq!(Document::decode(&bytes), Err(DecoderError::UnknownCritical));
}

#[test]
fn header_must_come_first_and_once() {
    let bytes = file(&[framed(b"pHYs", &PHYS), framed(b"IHDR", &HEADER)]);
    assert_eq!(Document::decode(&bytes), Err(DecoderError::Order));
    let bytes = file(&[framed(b"IDAT", &STREAM), framed(b"IHDR", &HEADER)]);
    assert_eq!(Document::decode(&bytes), Err(DecoderError::Order));
    let bytes = file(&[framed(b"IHDR", &HEADER), framed(b"IHDR", &HEADER)]);
    assert_eq!(Document::decode(&bytes), Err(DecoderError::Order));
}

#[test]
fn nothing_follows_the_end_marker() {
    let mut bytes = SMALL.to_vec();
    bytes.extend_from_slice(&framed(b"pHYs", &PHYS));
    assert_eq!(Document::decode(&bytes), Err(DecoderError::Order));
    let mut bytes = SMALL.to_vec();
    bytes.push(0);
    assert_eq!(Document::decode(&bytes), Err(DecoderError::Order));
}

#[test]
fn image_data_does_not_begin_again() {
    let bytes = file(&[
        framed(b"IHDR", &HEADER),
        framed(b"IDAT", &STREAM),
        framed(b"pHYs", &PHYS),
        framed(b"IDAT", &STREAM),
    ]);
    assert_eq!(Document::decode(&bytes), Err(DecoderError::Order));
}

#[test]
fn damaged_image_data_is_refused_when_the_stream_closes() {
    let bytes = file(&[
        framed(b"IHDR", &HEADER),
        framed(b"IDAT", &STREAM[..9]),
        framed(b"pHYs", &[0, 0, 0, 1, 0, 0, 0, 1, 9]),
    ]);
    assert_eq!(Document::decode(&bytes), Err(DecoderError::Zlib));
    let bytes = file(&[framed(b"IHDR", &HEADER), framed(b"IDAT", &STREAM[..9])]);
    assert_eq!(Document::decode(&bytes), Err(DecoderError::Zlib));
    let bytes = file(&[framed(b"IHDR", &HEADER), framed(b"IDAT", &[])]);
    assert_eq!(Document::decode(&bytes), Err(DecoderError::Zlib));
}

#[test]
fn frame_data_is_kept_chunk_by_chunk() {
    let bytes = file(&[
        framed(b"IHDR", &HEADER),
        framed(b"IDAT", &STREAM),
        framed(b"fdAT", &[0, 0, 0, 1, 7, 8]),
        framed(b"fdAT", &[0, 0, 0, 2, 9]),
        framed(b"IEND", &[]),
    ]);
    let doc = Document::decode(&bytes).unwrap();
    assert_eq!(
        doc.chunks[2],
        Chunk::FrameData(FrameData { sequence_number: 1, data: vec![7, 8] })
    );
    assert_eq!(doc.chunks[3], Chunk::FrameData(FrameData { sequence_number: 2, data: vec![9] }));
    assert_eq!(Document::decode(&doc.encode(&Config::new()).unwrap()), Ok(doc));
}

#[test]
fn assembler_takes_chunks_one_by_one() {
    let bytes = file(&[
        framed(b"IHDR", &HEADER),
        framed(b"IDAT", &STREAM[..4]),
        framed(b"IDAT", &STREAM[4..]),
        framed(b"IEND", &[]),
    ]);
    let mut parse = Parser::new(&bytes);
    parse.signature().unwrap();
    let mut builder = Assembler::new();
    while !parse.is_done() {
        assert!(!builder.is_ended());
        let tag = parse.prepare().unwrap();
        assert_eq!(builder.accept(tag, &mut parse), Ok(()));
    }
    assert!(builder.is_ended());
    let doc = builder.finish().unwrap();
    assert_eq!(doc.chunks[1], Chunk::ImageData(ImageData::with_data(RAW.to_vec())));
}

#[test]
fn assembler_settles_what_unpacking_gave() {
    let mut builder = Assembler::new();
    assert_eq!(builder.settle(Err(DecoderError::Zlib)), Err(DecoderError::Zlib));
    assert_eq!(builder.close(), Ok(()));
    assert_eq!(builder.finish(), Err(DecoderError::Eof));
    let bytes = file(&[framed(b"IHDR", &HEADER)]);
    let mut parse = Parser::new(&bytes);
    parse.signature().unwrap();
    let mut builder = Assembler::new();
    let tag = parse.prepare().unwrap();
    builder.accept(tag, &mut parse).unwrap();
    assert_eq!(builder.settle(Ok(vec![1, 2, 3])), Ok(()));
    let doc = builder.finish().unwrap();
    assert_eq!(doc.chunks[1], Chunk::ImageData(ImageData::with_data(vec![1, 2, 3])));
}

#[test]
fn accumulator_collects_until_closed() {
    let mut image = png_pong::document::Accumulator::new();
    assert!(!image.is_closed());
    assert_eq!(image.close(), None);
    assert!(!image.is_closed());
    image.append(vec![1, 2]);
    image.append(Vec::new());
    image.append(vec![3]);
    assert!(!image.is_closed());
    assert_eq!(image.close(), Some(vec![1, 2, 3]));
    assert!(image.is_closed());
    assert_eq!(image.close(), None);
    assert!(image.is_closed());
    let mut other = png_pong::document::Accumulator::new();
    other.append(vec![9]);
    other.seal();
    assert!(other.is_closed());
    assert_eq!(other.close(), None);
}

#[test]
fn decoded_documents_are_well_formed() {
    assert!(small().is_well_formed());
    assert!(Document::decode(&SMALL).unwrap().is_well_formed());
    let only = Document::decode(&file(&[framed(b"IHDR", &HEADER)])).unwrap();
    assert!(only.is_well_formed());
}

#[test]
fn documents_that_decoding_cannot_give() {
    let mut none = small();
    none.chunks.clear();
    assert!(!none.is_well_formed());
    let mut other = small();
    other.header.width = 3;
    assert!(!other.is_well_formed());
    let mut headless = small();
    headless.chunks.remove(0);
    assert!(!headless.is_well_formed());
    let mut twice = small();
    twice.chunks.insert(1, Chunk::ImageHeader(header()));
    assert!(!twice.is_well_formed());
    let mut two = small();
    two.chunks.insert(1, Chunk::ImageData(ImageData::with_data(Vec::new())));
    assert!(!two.is_well_formed());
    let mut early = small();
    early.chunks.insert(1, Chunk::ImageEnd(ImageEnd));
    assert!(!early.is_well_formed());
    let mut critical = small();
    critical.chunks.insert(1, Chunk::Unknown(Unknown { tag: *b"TeSt", data: Vec::new() }));
    assert!(!critical.is_well_formed());
    let mut known = small();
    known.chunks.insert(1, Chunk::Unknown(Unknown { tag: *b"pHYs", data: Vec::new() }));
    assert!(!known.is_well_formed());
    let mut invalid = small();
    invalid.header.bit_depth = 3;
    invalid.chunks[0] = Chunk::ImageHeader(invalid.header);
    assert!(!invalid.is_well_formed());
    let mut kept = small();
    kept.chunks.insert(1, Chunk::Unknown(Unknown { tag: *b"teSt", data: vec![1] }));
    assert!(kept.is_well_formed());
    assert_eq!(Document::decode(&kept.encode(&Config::new()).unwrap()), Ok(kept));
}

#[test]
fn documents_that_are_not_well_formed_need_not_come_back() {
    let mut two = small();
    two.chunks.insert(2, Chunk::ImageData(ImageData::with_data(vec![1])));
    let bytes = two.encode(&Config::new()).unwrap();
    assert_ne!(Document::decode(&bytes), Ok(two));
    let mut early = small();
    early.chunks.insert(1, Chunk::ImageEnd(ImageEnd));
    let bytes = early.encode(&Config::new()).unwrap();
    assert_eq!(Document::decode(&bytes), Err(DecoderError::Order));
}
