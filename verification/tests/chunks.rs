use png_pong::chunk::{
    AnimationControl, BlendOp, Chunk, ColorType, DisposeOp, FrameControl, FrameData, ImageData,
    ImageEnd, ImageHeader, Palette, Physical, Rgb, Unknown,
};
use png_pong::consts::{IMAGE_DATA, PHYSICAL};
use png_pong::decoder::Parser;
use png_pong::encoder::Enc;
use png_pong::error::{DecoderError, EncoderError};
use png_pong::zlib::{compress, decompress, DEFAULT_LEVEL, MAX_LEVEL};

fn crc(data: &[u8]) -> u32 {
    let mut reg = 0xFFFF_FFFFu32;
    for byte in data {
        reg ^= *byte as u32;
        for _ in 0..8 {
            reg = if reg & 1 == 1 { (reg >> 1) ^ 0xEDB8_8320 } else { reg >> 1 };
        }
    }
    !reg
}

fn framed(tag: &[u8; 4], payload: &[u8]) -> Vec<u8> {
    let mut out = (payload.len() as u32).to_be_bytes().to_vec();
    out.extend_from_slice(tag);
    out.extend_from_slice(payload);
    let mut covered = tag.to_vec();
    covered.extend_from_slice(payload);
    out.extend_from_slice(&crc(&covered).to_be_bytes());
    out
}

fn parsed(tag: &[u8; 4], payload: &[u8]) -> Result<Chunk, DecoderError> {
    let bytes = framed(tag, payload);
    let mut parse = Parser::new(&bytes);
    let found = parse.prepare().unwrap();
    assert_eq!(&found, tag);
    let chunk = Chunk::parse(found, &mut parse);
    if chunk.is_ok() {
        assert!(!parse.is_open());
        assert!(parse.is_done());
    }
    chunk
}

fn written(chunk: &Chunk) -> Vec<u8> {
    let mut enc = Enc::new(0x7FFF_FFFF);
    assert_eq!(chunk.write(&mut enc, DEFAULT_LEVEL), Ok(()));
    enc.finish()
}

const PHYS: [u8; 21] =
    [0, 0, 0, 9, 112, 72, 89, 115, 0, 0, 11, 19, 0, 0, 11, 19, 1, 0, 154, 156, 24];

#[test]
fn physical_write_lays_out_nine_bytes() {
    let phys = Physical { ppu_x: 2835, ppu_y: 2835, is_meter: true };
    let mut enc = Enc::new(1);
    assert_eq!(phys.write(&mut enc), Ok(()));
    assert_eq!(enc.finish(), PHYS.to_vec());
    let other = Physical { ppu_x: 1, ppu_y: 0xFFFF_FFFF, is_meter: false };
    let mut enc = Enc::new(1);
    assert_eq!(other.write(&mut enc), Ok(()));
    assert_eq!(enc.finish(), framed(b"pHYs", &[0, 0, 0, 1, 255, 255, 255, 255, 0]));
}

#[test]
fn physical_parse_reads_the_fields() {
    let mut parse = Parser::new(&PHYS);
    assert_eq!(parse.prepare(), Ok(PHYSICAL));
    let chunk = Physical::parse(&mut parse);
    assert_eq!(
        chunk,
        Ok(Chunk::Physical(Physical { ppu_x: 2835, ppu_y: 2835, is_meter: true }))
    );
    assert_eq!(parse.len(), 0);
    assert!(parse.end().is_ok());
}

#[test]
fn physical_unit_flag_is_zero_or_one() {
    assert_eq!(
        parsed(b"pHYs", &[0, 0, 0, 1, 0, 0, 0, 2, 0]),
        Ok(Chunk::Physical(Physical { ppu_x: 1, ppu_y: 2, is_meter: false }))
    );
    assert_eq!(
        parsed(b"pHYs", &[0, 0, 0, 1, 0, 0, 0, 2, 1]),
        Ok(Chunk::Physical(Physical { ppu_x: 1, ppu_y: 2, is_meter: true }))
    );
    for flag in 2..=255u8 {
        assert_eq!(
            parsed(b"pHYs", &[0, 0, 0, 1, 0, 0, 0, 2, flag]),
            Err(DecoderError::PhysUnits)
        );
    }
}

#[test]
fn physical_length_is_nine() {
    for len in 0..9 {
        let payload = vec![0u8; len];
        assert_eq!(parsed(b"pHYs", &payload), Err(DecoderError::ChunkLength));
    }
    assert_eq!(
        parsed(b"pHYs", &[0, 0, 0, 1, 0, 0, 0, 2, 1, 0]),
        Err(DecoderError::ChunkLength)
    );
    assert_eq!(
        parsed(b"pHYs", &[0, 0, 0, 1, 0, 0, 0, 2, 7, 0]),
        Err(DecoderError::PhysUnits)
    );
}

#[test]
fn image_data_with_data_and_data() {
    let chunk = ImageData::with_data(vec![1, 2, 3]);
    assert_eq!(chunk.data(), &[1, 2, 3]);
    assert_eq!(chunk.data, vec![1, 2, 3]);
    assert_eq!(ImageData::with_data(Vec::new()).data(), &[] as &[u8]);
}

#[test]
fn image_data_read_hands_out_the_payload() {
    let bytes = framed(b"IDAT", &[5, 6, 7]);
    let mut parse = Parser::new(&bytes);
    assert_eq!(parse.prepare(), Ok(IMAGE_DATA));
    let (chunk, sum) = ImageData::read(&mut parse).unwrap();
    assert_eq!(chunk.data(), &[5, 6, 7]);
    assert_eq!(sum, crc(&[73, 68, 65, 84, 5, 6, 7]));
    assert!(!parse.is_open());
    assert_eq!(ImageData::read(&mut parse), Err(DecoderError::ChunkLength));
}

#[test]
fn image_data_write_packs_and_cuts() {
    let raw: Vec<u8> = (0..200u32).map(|i| (i * 7 % 251) as u8).collect();
    let chunk = ImageData::with_data(raw.clone());
    let mut enc = Enc::new(16);
    assert_eq!(chunk.write(&mut enc, 9), Ok(()));
    let bytes = enc.finish();
    let mut parse = Parser::new(&bytes);
    let mut stream = Vec::new();
    let mut count = 0;
    while !parse.is_done() {
        assert_eq!(parse.prepare(), Ok(IMAGE_DATA));
        let (piece, _) = ImageData::read(&mut parse).unwrap();
        assert!(piece.data.len() <= 16);
        assert!(parse.is_done() || piece.data.len() == 16);
        stream.extend_from_slice(piece.data());
        count += 1;
    }
    assert!(count >= 2);
    assert_ne!(stream, raw);
    assert_eq!(stream, compress(&raw, 9).unwrap());
    assert_eq!(decompress(&stream), Ok(raw));
}

#[test]
fn image_data_write_refuses_level_and_limit() {
    let chunk = ImageData::with_data(vec![1, 2, 3]);
    let mut enc = Enc::new(16);
    assert_eq!(chunk.write(&mut enc, 11), Err(EncoderError::Level));
    assert_eq!(chunk.write(&mut enc, 255), Err(EncoderError::Level));
    assert_eq!(enc.finish(), Vec::<u8>::new());
    let mut zero = Enc::new(0);
    assert_eq!(chunk.write(&mut zero, 6), Err(EncoderError::ChunkLimit));
    assert_eq!(chunk.write(&mut zero, 11), Err(EncoderError::Level));
    assert_eq!(zero.finish(), Vec::<u8>::new());
    let mut over = Enc::new(0x8000_0000);
    assert_eq!(chunk.write(&mut over, 6), Err(EncoderError::ChunkLimit));
    let mut most = Enc::new(0x7FFF_FFFF);
    assert_eq!(chunk.write(&mut most, 10), Ok(()));
    let mut least = Enc::new(1);
    assert_eq!(chunk.write(&mut least, 0), Ok(()));
}

#[test]
fn zlib_round_trip_at_every_level() {
    let raw: Vec<u8> = (0..1000u32).map(|i| (i % 13) as u8).collect();
    for level in 0..=MAX_LEVEL {
        let packed = compress(&raw, level).unwrap();
        assert_eq!(packed[0] & 0x0F, 8);
        assert_eq!(decompress(&packed), Ok(raw.clone()));
    }
    assert!(compress(&raw, 9).unwrap().len() < raw.len());
    assert_eq!(decompress(&compress(&[], 6).unwrap()), Ok(Vec::new()));
}

#[test]
fn zlib_known_stream() {
    let stream = [120, 156, 99, 224, 18, 97, 144, 211, 0, 0, 0, 236, 0, 101];
    assert_eq!(decompress(&stream), Ok(vec![0, 10, 20, 0, 30, 40]));
}

#[test]
fn zlib_refuses_level_out_of_range() {
    assert_eq!(compress(&[1, 2, 3], 11), Err(EncoderError::Level));
    assert_eq!(compress(&[1, 2, 3], 200), Err(EncoderError::Level));
    assert!(compress(&[1, 2, 3], 10).is_ok());
}

#[test]
fn zlib_refuses_damaged_stream() {
    let stream = [120, 156, 99, 224, 18, 97, 144, 211, 0, 0, 0, 236, 0, 101];
    assert_eq!(decompress(&stream[..10]), Err(DecoderError::Zlib));
    assert_eq!(decompress(&[]), Err(DecoderError::Zlib));
    assert_eq!(decompress(&[1, 2, 3, 4]), Err(DecoderError::Zlib));
    let mut bad = stream;
    bad[13] ^= 1;
    assert_eq!(decompress(&bad), Err(DecoderError::Zlib));
}

#[test]
fn header_round_trip() {
    let header = ImageHeader {
        width: 640,
        height: 480,
        color_type: ColorType::Rgba,
        bit_depth: 16,
        interlace: true,
    };
    let bytes = written(&Chunk::ImageHeader(header));
    assert_eq!(bytes, framed(b"IHDR", &[0, 0, 2, 128, 0, 0, 1, 224, 16, 6, 0, 0, 1]));
    assert_eq!(parsed(b"IHDR", &bytes[8..21]), Ok(Chunk::ImageHeader(header)));
    assert!(header.is_valid());
}

#[test]
fn header_fields_have_closed_domains() {
    let good = [0, 0, 0, 1, 0, 0, 0, 1, 8, 0, 0, 0, 0];
    assert!(parsed(b"IHDR", &good).is_ok());
    let cases: [(usize, u8); 9] =
        [(3, 0), (7, 0), (0, 128), (4, 128), (8, 3), (9, 1), (10, 1), (11, 1), (12, 2)];
    for (at, value) in cases {
        let mut bad = good;
        bad[at] = value;
        assert_eq!(parsed(b"IHDR", &bad), Err(DecoderError::HeaderField));
    }
    assert_eq!(parsed(b"IHDR", &good[..12]), Err(DecoderError::ChunkLength));
    let mut long = good.to_vec();
    long.push(0);
    assert_eq!(parsed(b"IHDR", &long), Err(DecoderError::ChunkLength));
}

#[test]
fn header_depth_goes_with_color_type() {
    let allowed: [(ColorType, u8, &[u8]); 5] = [
        (ColorType::Grey, 0, &[1, 2, 4, 8, 16]),
        (ColorType::Rgb, 2, &[8, 16]),
        (ColorType::Palette, 3, &[1, 2, 4, 8]),
        (ColorType::GreyAlpha, 4, &[8, 16]),
        (ColorType::Rgba, 6, &[8, 16]),
    ];
    for (color, code, depths) in allowed {
        assert_eq!(color.to_code(), code);
        assert_eq!(ColorType::of_code(code), Some(color));
        for depth in 0..=255u8 {
            assert_eq!(color.depth_ok(depth), depths.contains(&depth));
            let payload = [0, 0, 0, 1, 0, 0, 0, 1, depth, code, 0, 0, 0];
            assert_eq!(parsed(b"IHDR", &payload).is_ok(), depths.contains(&depth));
        }
    }
    assert_eq!(ColorType::of_code(1), None);
    assert_eq!(ColorType::of_code(5), None);
    assert_eq!(ColorType::of_code(7), None);
    assert_eq!(ColorType::Grey.channel_count(), 1);
    assert_eq!(ColorType::Rgb.channel_count(), 3);
    assert_eq!(ColorType::Palette.channel_count(), 1);
    assert_eq!(ColorType::GreyAlpha.channel_count(), 2);
    assert_eq!(ColorType::Rgba.channel_count(), 4);
}

#[test]
fn palette_round_trip() {
    let palette = Palette {
        colors: vec![
            Rgb { red: 1, green: 2, blue: 3 },
            Rgb { red: 4, green: 5, blue: 6 },
        ],
    };
    let bytes = written(&Chunk::Palette(palette.clone()));
    assert_eq!(bytes, framed(b"PLTE", &[1, 2, 3, 4, 5, 6]));
    assert_eq!(parsed(b"PLTE", &[1, 2, 3, 4, 5, 6]), Ok(Chunk::Palette(palette)));
}

#[test]
fn palette_length_is_one_to_256_colors() {
    assert_eq!(parsed(b"PLTE", &[]), Err(DecoderError::ChunkLength));
    assert_eq!(parsed(b"PLTE", &[1, 2]), Err(DecoderError::ChunkLength));
    assert_eq!(parsed(b"PLTE", &[1, 2, 3, 4]), Err(DecoderError::ChunkLength));
    assert!(parsed(b"PLTE", &vec![7u8; 768]).is_ok());
    assert_eq!(parsed(b"PLTE", &vec![7u8; 771]), Err(DecoderError::ChunkLength));
}

#[test]
fn end_marker_has_no_payload() {
    assert_eq!(
        written(&Chunk::ImageEnd(ImageEnd)),
        vec![0, 0, 0, 0, 73, 69, 78, 68, 174, 66, 96, 130]
    );
    assert_eq!(parsed(b"IEND", &[]), Ok(Chunk::ImageEnd(ImageEnd)));
    assert_eq!(parsed(b"IEND", &[0]), Err(DecoderError::ChunkLength));
}

#[test]
fn animation_control_round_trip() {
    let control = AnimationControl { num_frames: 3, num_plays: 0x0102_0304 };
    let bytes = written(&Chunk::AnimationControl(control));
    assert_eq!(bytes, framed(b"acTL", &[0, 0, 0, 3, 1, 2, 3, 4]));
    assert_eq!(parsed(b"acTL", &[0, 0, 0, 3, 1, 2, 3, 4]), Ok(Chunk::AnimationControl(control)));
    assert_eq!(parsed(b"acTL", &[0, 0, 0, 3, 1, 2, 3]), Err(DecoderError::ChunkLength));
    assert_eq!(parsed(b"acTL", &[0, 0, 0, 3, 1, 2, 3, 4, 5]), Err(DecoderError::ChunkLength));
}

#[test]
fn frame_control_round_trip() {
    let control = FrameControl {
        sequence_number: 1,
        width: 2,
        height: 3,
        x_offset: 4,
        y_offset: 5,
        delay_num: 6,
        delay_den: 0x0708,
        dispose_op: DisposeOp::Previous,
        blend_op: BlendOp::Over,
    };
    let payload = [
        0, 0, 0, 1, 0, 0, 0, 2, 0, 0, 0, 3, 0, 0, 0, 4, 0, 0, 0, 5, 0, 6, 7, 8, 2, 1,
    ];
    assert_eq!(written(&Chunk::FrameControl(control)), framed(b"fcTL", &payload));
    assert_eq!(parsed(b"fcTL", &payload), Ok(Chunk::FrameControl(control)));
}

#[test]
fn frame_control_operations_have_closed_domains() {
    let good = [
        0, 0, 0, 1, 0, 0, 0, 2, 0, 0, 0, 3, 0, 0, 0, 4, 0, 0, 0, 5, 0, 6, 7, 8, 0, 0,
    ];
    assert!(parsed(b"fcTL", &good).is_ok());
    for dispose in 3..=255u8 {
        let mut bad = good;
        bad[24] = dispose;
        assert_eq!(parsed(b"fcTL", &bad), Err(DecoderError::FrameControlField));
    }
    for blend in 2..=255u8 {
        let mut bad = good;
        bad[25] = blend;
        assert_eq!(parsed(b"fcTL", &bad), Err(DecoderError::FrameControlField));
    }
    assert_eq!(parsed(b"fcTL", &good[..25]), Err(DecoderError::ChunkLength));
    assert_eq!(DisposeOp::of_code(0), Some(DisposeOp::Leave));
    assert_eq!(DisposeOp::of_code(1), Some(DisposeOp::Background));
    assert_eq!(DisposeOp::Previous.to_code(), 2);
    assert_eq!(BlendOp::of_code(0), Some(BlendOp::Source));
    assert_eq!(BlendOp::Over.to_code(), 1);
    assert_eq!(BlendOp::of_code(2), None);
}

#[test]
fn frame_data_round_trip() {
    let data = FrameData { sequence_number: 0x0A0B_0C0D, data: vec![9, 8, 7] };
    let bytes = written(&Chunk::FrameData(data.clone()));
    assert_eq!(bytes, framed(b"fdAT", &[10, 11, 12, 13, 9, 8, 7]));
    assert_eq!(parsed(b"fdAT", &[10, 11, 12, 13, 9, 8, 7]), Ok(Chunk::FrameData(data)));
    assert_eq!(
        parsed(b"fdAT", &[0, 0, 0, 1]),
        Ok(Chunk::FrameData(FrameData { sequence_number: 1, data: Vec::new() }))
    );
    assert_eq!(parsed(b"fdAT", &[0, 0, 1]), Err(DecoderError::ChunkLength));
}

#[test]
fn unknown_ancillary_is_kept_and_critical_refused() {
    let kept = Unknown { tag: *b"teSt", data: b"hello".to_vec() };
    assert_eq!(parsed(b"teSt", b"hello"), Ok(Chunk::Unknown(kept.clone())));
    assert_eq!(
        written(&Chunk::Unknown(kept)),
        vec![0, 0, 0, 5, 116, 101, 83, 116, 104, 101, 108, 108, 111, 161, 241, 197, 206]
    );
    assert_eq!(parsed(b"TeSt", b"hello"), Err(DecoderError::UnknownCritical));
    assert_eq!(parsed(b"TEST", &[]), Err(DecoderError::UnknownCritical));
}

#[test]
fn image_data_chunk_parses_to_its_slice() {
    assert_eq!(
        parsed(b"IDAT", &[1, 2, 3]),
        Ok(Chunk::ImageData(ImageData::with_data(vec![1, 2, 3])))
    );
}

#[test]
fn records_know_whether_they_are_valid() {
    assert!(Chunk::ImageEnd(ImageEnd).is_valid());
    assert!(Chunk::Physical(Physical { ppu_x: 0, ppu_y: 0, is_meter: false }).is_valid());
    assert!(!Chunk::Palette(Palette { colors: Vec::new() }).is_valid());
    let color = Rgb { red: 0, green: 0, blue: 0 };
    assert!(Chunk::Palette(Palette { colors: vec![color; 256] }).is_valid());
    assert!(!Chunk::Palette(Palette { colors: vec![color; 257] }).is_valid());
    assert!(Chunk::Unknown(Unknown { tag: *b"teSt", data: Vec::new() }).is_valid());
    assert!(!Chunk::Unknown(Unknown { tag: *b"TeSt", data: Vec::new() }).is_valid());
    assert!(!Chunk::Unknown(Unknown { tag: *b"acTL", data: Vec::new() }).is_valid());
    let header = ImageHeader {
        width: 0,
        height: 1,
        color_type: ColorType::Grey,
        bit_depth: 8,
        interlace: false,
    };
    assert!(!Chunk::ImageHeader(header).is_valid());
    assert!(Chunk::ImageHeader(ImageHeader { width: 1, ..header }).is_valid());
    assert!(!Chunk::ImageHeader(ImageHeader { width: 0x8000_0000, ..header }).is_valid());
    assert!(Chunk::FrameData(FrameData { sequence_number: 0, data: Vec::new() }).is_valid());
}
