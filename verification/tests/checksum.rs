use png_pong::checksum::{checksum, step, update};

#[test]
fn crc_of_check_string() {
    let data = b"123456789";
    assert_eq!(checksum(data, 0, data.len()), 0xCBF4_3926);
}

#[test]
fn crc_of_end_marker_tag() {
    assert_eq!(checksum(b"IEND", 0, 4), 0xAE42_6082);
}

#[test]
fn crc_of_nothing() {
    assert_eq!(checksum(b"", 0, 0), 0);
    assert_eq!(checksum(b"abc", 2, 2), 0);
}

#[test]
fn crc_of_a_range() {
    let data = b"xxIENDyy";
    assert_eq!(checksum(data, 2, 6), 0xAE42_6082);
}

#[test]
fn crc_in_two_parts() {
    let data = b"123456789";
    let first = update(0xFFFF_FFFF, data, 0, 4);
    let second = update(first, data, 4, 9);
    assert_eq!(second ^ 0xFFFF_FFFF, 0xCBF4_3926);
}

#[test]
fn crc_byte_by_byte() {
    let mut reg = 0xFFFF_FFFFu32;
    for b in b"IEND" {
        reg = step(reg, *b);
    }
    assert_eq!(reg ^ 0xFFFF_FFFF, 0xAE42_6082);
}

#[test]
fn crc_sees_every_single_bit() {
    let data = b"pHYs\x00\x00\x0b\x13\x00\x00\x0b\x13\x01".to_vec();
    let good = checksum(&data, 0, data.len());
    assert_eq!(good, 0x009A_9C18);
    for at in 0..data.len() {
        for bit in 0..8 {
            let mut bad = data.clone();
            bad[at] ^= 1 << bit;
            assert_ne!(checksum(&bad, 0, bad.len()), good);
        }
    }
}
