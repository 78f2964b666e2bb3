use ttf_glyphs::{to_i16, to_i32, to_string, to_u16, to_u32, to_u8, DecodeError};

#[test]
fn reads_unsigned_16_bit_big_endian() {
    let bytes = vec![0x12u8, 0x34, 0xff, 0xfe];
    assert_eq!(to_u16(&bytes, 0), Ok(0x1234));
    assert_eq!(to_u16(&bytes, 1), Ok(0x34ff));
    assert_eq!(to_u16(&bytes, 2), Ok(0xfffe));
}

#[test]
fn reads_signed_16_bit_big_endian() {
    let bytes = vec![0x12u8, 0x34, 0xff, 0xfe, 0x80, 0x00, 0x7f, 0xff];
    assert_eq!(to_i16(&bytes, 0), Ok(0x1234));
    assert_eq!(to_i16(&bytes, 2), Ok(-2));
    assert_eq!(to_i16(&bytes, 4), Ok(i16::MIN));
    assert_eq!(to_i16(&bytes, 6), Ok(i16::MAX));
}

#[test]
fn reads_32_bit_big_endian() {
    let bytes = vec![0x12u8, 0x34, 0x56, 0x78, 0xff, 0xff, 0xff, 0xfe];
    assert_eq!(to_u32(&bytes, 0), Ok(0x1234_5678));
    assert_eq!(to_u32(&bytes, 4), Ok(0xffff_fffe));
    assert_eq!(to_i32(&bytes, 0), Ok(0x1234_5678));
    assert_eq!(to_i32(&bytes, 4), Ok(-2));
    assert_eq!(to_i32(&[0x80, 0, 0, 0], 0), Ok(i32::MIN));
}

#[test]
fn agrees_with_from_be_bytes() {
    let bytes: Vec<u8> = (0..=255u8).rev().collect();
    for i in 0..bytes.len() - 3 {
        let two = [bytes[i], bytes[i + 1]];
        let four = [bytes[i], bytes[i + 1], bytes[i + 2], bytes[i + 3]];
        assert_eq!(to_u16(&bytes, i), Ok(u16::from_be_bytes(two)));
        assert_eq!(to_i16(&bytes, i), Ok(i16::from_be_bytes(two)));
        assert_eq!(to_u32(&bytes, i), Ok(u32::from_be_bytes(four)));
        assert_eq!(to_i32(&bytes, i), Ok(i32::from_be_bytes(four)));
    }
}

#[test]
fn a_read_past_the_end_fails() {
    let bytes = vec![1u8, 2, 3, 4];
    assert_eq!(to_u8(&bytes, 3), Ok(4));
    assert_eq!(to_u8(&bytes, 4), Err(DecodeError::OutOfBounds));
    assert_eq!(to_u16(&bytes, 2), Ok(0x0304));
    assert_eq!(to_u16(&bytes, 3), Err(DecodeError::OutOfBounds));
    assert_eq!(to_i16(&bytes, 3), Err(DecodeError::OutOfBounds));
    assert_eq!(to_u32(&bytes, 0), Ok(0x0102_0304));
    assert_eq!(to_u32(&bytes, 1), Err(DecodeError::OutOfBounds));
    assert_eq!(to_i32(&bytes, 1), Err(DecodeError::OutOfBounds));
    assert_eq!(to_u16(&bytes, usize::MAX), Err(DecodeError::OutOfBounds));
    assert_eq!(to_u32(&bytes, usize::MAX - 1), Err(DecodeError::OutOfBounds));
    assert_eq!(to_u16(&[], 0), Err(DecodeError::OutOfBounds));
}

#[test]
fn reads_a_tag_as_text() {
    let bytes = b"xxglyfcmap".to_vec();
    assert_eq!(to_string(&bytes, 2), Ok("glyf".to_string()));
    assert_eq!(to_string(&bytes, 6), Ok("cmap".to_string()));
    assert_eq!(to_string(&bytes, 7), Err(DecodeError::OutOfBounds));
}

#[test]
fn a_tag_that_is_not_utf8_reads_as_empty_text() {
    let bytes = vec![b'a', 0xff, b'b', b'c'];
    assert_eq!(to_string(&bytes, 0), Ok(String::new()));
    let cut = vec![b'a', b'b', b'c', 0xc3];
    assert_eq!(to_string(&cut, 0), Ok(String::new()));
    let two_byte = vec![b'a', 0xc3, 0xa9, b'b'];
    assert_eq!(to_string(&two_byte, 0), Ok("a\u{e9}b".to_string()));
}
