use png_pong::consts::{IMAGE_DATA, IMAGE_END, PHYSICAL, SIGNATURE};
use png_pong::decoder::Parser;
use png_pong::encoder::Enc;
use png_pong::error::DecoderError;
use png_pong::tag::{
    is_ancillary, is_private, is_reserved, is_safe_to_copy, lookup, same_tag, ChunkKind,
};
use png_pong::wire::{get_u16, get_u32, put_u16, put_u32};

const END: [u8; 12] = [0, 0, 0, 0, 73, 69, 78, 68, 174, 66, 96, 130];
const PHYS: [u8; 21] =
    [0, 0, 0, 9, 112, 72, 89, 115, 0, 0, 11, 19, 0, 0, 11, 19, 1, 0, 154, 156, 24];

#[test]
fn integers_most_significant_byte_first() {
    let mut out = Vec::new();
    put_u32(&mut out, 0x0102_0304);
    put_u16(&mut out, 0xA0B0);
    assert_eq!(out, vec![1, 2, 3, 4, 0xA0, 0xB0]);
    assert_eq!(get_u32(&out, 0), 0x0102_0304);
    assert_eq!(get_u32(&out, 2), 0x0304_A0B0);
    assert_eq!(get_u16(&out, 4), 0xA0B0);
    let mut all = Vec::new();
    put_u32(&mut all, u32::MAX);
    assert_eq!(all, vec![255, 255, 255, 255]);
    assert_eq!(get_u32(&all, 0), u32::MAX);
}

#[test]
fn catalog_names_each_tag() {
    assert_eq!(lookup(b"IHDR"), ChunkKind::ImageHeader);
    assert_eq!(lookup(b"PLTE"), ChunkKind::Palette);
    assert_eq!(lookup(b"IDAT"), ChunkKind::ImageData);
    assert_eq!(lookup(b"IEND"), ChunkKind::ImageEnd);
    assert_eq!(lookup(b"pHYs"), ChunkKind::Physical);
    assert_eq!(lookup(b"acTL"), ChunkKind::AnimationControl);
    assert_eq!(lookup(b"fcTL"), ChunkKind::FrameControl);
    assert_eq!(lookup(b"fdAT"), ChunkKind::FrameData);
    assert_eq!(lookup(b"tEXt"), ChunkKind::Unknown);
    assert_eq!(lookup(b"idat"), ChunkKind::Unknown);
    assert_eq!(lookup(&IMAGE_DATA), ChunkKind::ImageData);
    assert!(same_tag(&PHYSICAL, b"pHYs"));
    assert!(!same_tag(&PHYSICAL, b"pHYS"));
}

#[test]
fn letter_case_carries_the_four_flags() {
    assert!(!is_ancillary(b"IHDR"));
    assert!(!is_private(b"IHDR"));
    assert!(!is_reserved(b"IHDR"));
    assert!(!is_safe_to_copy(b"IHDR"));
    assert!(is_ancillary(b"pHYs"));
    assert!(!is_private(b"pHYs"));
    assert!(!is_reserved(b"pHYs"));
    assert!(is_safe_to_copy(b"pHYs"));
    assert!(is_private(b"prIv"));
    assert!(is_reserved(b"abcd"));
    assert!(!is_safe_to_copy(b"acTL"));
}

#[test]
fn parser_reads_signature() {
    let mut bytes = SIGNATURE.to_vec();
    bytes.extend_from_slice(&END);
    let mut parse = Parser::new(&bytes);
    assert!(!parse.is_done());
    assert_eq!(parse.signature(), Ok(()));
    assert_eq!(parse.prepare(), Ok(IMAGE_END));
    assert!(parse.is_open());
    assert_eq!(parse.len(), 0);
    assert_eq!(parse.end(), Ok(0xAE42_6082));
    assert!(parse.is_done());
}

#[test]
fn parser_refuses_other_signature() {
    let mut bytes = SIGNATURE.to_vec();
    bytes[7] = 11;
    let mut parse = Parser::new(&bytes);
    assert_eq!(parse.signature(), Err(DecoderError::Signature));
    let mut short = Parser::new(&SIGNATURE[..7]);
    assert_eq!(short.signature(), Err(DecoderError::Eof));
    let mut none = Parser::new(&[]);
    assert_eq!(none.signature(), Err(DecoderError::Eof));
}

#[test]
fn parser_reads_fields_of_a_chunk() {
    let mut parse = Parser::new(&PHYS);
    assert_eq!(parse.prepare(), Ok(PHYSICAL));
    assert_eq!(parse.len(), 9);
    assert_eq!(parse.u32(), Ok(2835));
    assert_eq!(parse.u16(), Ok(0));
    assert_eq!(parse.u16(), Ok(2835));
    assert_eq!(parse.len(), 1);
    assert_eq!(parse.end(), Err(DecoderError::ChunkLength));
    assert_eq!(parse.u8(), Ok(1));
    assert_eq!(parse.end(), Ok(0x009A_9C18));
    assert!(parse.is_done());
    assert!(!parse.is_open());
}

#[test]
fn parser_reads_never_leave_the_chunk() {
    let mut bytes = PHYS.to_vec();
    bytes.extend_from_slice(&END);
    let mut parse = Parser::new(&bytes);
    assert_eq!(parse.prepare(), Ok(PHYSICAL));
    assert_eq!(parse.raw(10), Err(DecoderError::ChunkLength));
    assert_eq!(parse.raw(6), Ok(vec![0, 0, 11, 19, 0, 0]));
    assert_eq!(parse.u32(), Err(DecoderError::ChunkLength));
    assert_eq!(parse.u16(), Ok(2835));
    assert_eq!(parse.u16(), Err(DecoderError::ChunkLength));
    assert_eq!(parse.vec_eof(), vec![1]);
    assert_eq!(parse.u8(), Err(DecoderError::ChunkLength));
    assert_eq!(parse.vec_eof(), Vec::<u8>::new());
    assert_eq!(parse.prepare(), Err(DecoderError::ChunkLength));
    assert_eq!(parse.signature(), Err(DecoderError::ChunkLength));
    assert_eq!(parse.end(), Ok(0x009A_9C18));
    assert_eq!(parse.end(), Err(DecoderError::ChunkLength));
    assert_eq!(parse.prepare(), Ok(IMAGE_END));
}

#[test]
fn parser_refuses_wrong_checksum() {
    for at in 4..17 {
        for bit in 0..8 {
            let mut bytes = PHYS.to_vec();
            bytes[at] ^= 1 << bit;
            let mut parse = Parser::new(&bytes);
            assert_eq!(parse.prepare(), Err(DecoderError::Checksum));
            assert!(!parse.is_open());
        }
    }
    let mut bytes = PHYS.to_vec();
    bytes[20] ^= 1;
    assert_eq!(Parser::new(&bytes).prepare(), Err(DecoderError::Checksum));
}

#[test]
fn parser_refuses_chunk_cut_short() {
    for keep in 1..PHYS.len() {
        let mut parse = Parser::new(&PHYS[..keep]);
        assert_eq!(parse.prepare(), Err(DecoderError::Eof));
    }
    let mut long = PHYS.to_vec();
    long[3] = 10;
    assert_eq!(Parser::new(&long).prepare(), Err(DecoderError::Eof));
    let mut huge = PHYS.to_vec();
    huge[0] = 255;
    assert_eq!(Parser::new(&huge).prepare(), Err(DecoderError::Eof));
}

#[test]
fn enc_writes_a_chunk_piece_by_piece() {
    let mut enc = Enc::new(100);
    assert_eq!(enc.limit(), 100);
    enc.prepare(9, PHYSICAL);
    enc.u32(2835);
    enc.u16(0);
    enc.u16(2835);
    enc.u8(1);
    enc.write_crc();
    assert_eq!(enc.finish(), PHYS.to_vec());
}

#[test]
fn enc_writes_signature_and_whole_chunks() {
    let mut enc = Enc::new(100);
    enc.signature();
    enc.chunk(PHYSICAL, &[9, 0, 0, 11, 19, 0, 0, 11, 19, 1, 9], 1, 10);
    enc.chunk(IMAGE_END, &[], 0, 0);
    let mut expected = SIGNATURE.to_vec();
    expected.extend_from_slice(&PHYS);
    expected.extend_from_slice(&END);
    assert_eq!(enc.finish(), expected);
}

#[test]
fn enc_raw_payload() {
    let mut enc = Enc::new(100);
    enc.prepare(5, *b"teSt");
    enc.raw(b"..hello..", 2, 7);
    enc.write_crc();
    assert_eq!(
        enc.finish(),
        vec![0, 0, 0, 5, 116, 101, 83, 116, 104, 101, 108, 108, 111, 161, 241, 197, 206]
    );
}

#[test]
fn enc_cuts_image_data_at_the_limit() {
    let mut enc = Enc::new(4);
    enc.image_data(&[1, 2, 3, 4, 5, 6, 7, 8, 9]);
    let bytes = enc.finish();
    let mut parse = Parser::new(&bytes);
    assert_eq!(parse.prepare(), Ok(IMAGE_DATA));
    assert_eq!(parse.vec_eof(), vec![1, 2, 3, 4]);
    assert!(parse.end().is_ok());
    assert_eq!(parse.prepare(), Ok(IMAGE_DATA));
    assert_eq!(parse.vec_eof(), vec![5, 6, 7, 8]);
    assert!(parse.end().is_ok());
    assert_eq!(parse.prepare(), Ok(IMAGE_DATA));
    assert_eq!(parse.vec_eof(), vec![9]);
    assert!(parse.end().is_ok());
    assert!(parse.is_done());
}

#[test]
fn enc_image_data_that_fits_is_one_chunk() {
    let mut exact = Enc::new(4);
    exact.image_data(&[1, 2, 3, 4]);
    let bytes = exact.finish();
    assert_eq!(bytes.len(), 16);
    assert_eq!(&bytes[..4], &[0, 0, 0, 4]);
    let mut empty = Enc::new(4);
    empty.image_data(&[]);
    let bytes = empty.finish();
    assert_eq!(bytes.len(), 12);
    assert_eq!(&bytes[..8], &[0, 0, 0, 0, 73, 68, 65, 84]);
    let mut over = Enc::new(4);
    over.image_data(&[1, 2, 3, 4, 5, 6, 7, 8]);
    assert_eq!(over.finish().len(), 32);
}
