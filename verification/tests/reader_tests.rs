use ak_assets::error::UnpackError;
use ak_assets::unpacker::bundle::read::{
    align4, aligned_bytes, aligned_string, byte, cstring, i16_be, i16_le, i32_be, i32_le, i64_be, i64_le, u16_be,
    u16_le, u32_be, u32_le, u64_be, u64_le, Reader,
};

fn reader(bytes: &[u8]) -> Reader {
    Reader::new(bytes.to_vec())
}

#[test]
fn reads_unsigned_integers_in_both_orders() {
    let mut r = reader(&[0x12, 0x34]);
    assert_eq!(u16_be(&mut r), Ok(0x1234));
    let mut r = reader(&[0x12, 0x34]);
    assert_eq!(u16_le(&mut r), Ok(0x3412));
    let mut r = reader(&[1, 2, 3, 4]);
    assert_eq!(u32_be(&mut r), Ok(0x0102_0304));
    assert_eq!(r.stream_position(), 4);
    let mut r = reader(&[1, 2, 3, 4]);
    assert_eq!(u32_le(&mut r), Ok(0x0403_0201));
    let mut r = reader(&[1, 2, 3, 4, 5, 6, 7, 8]);
    assert_eq!(u64_be(&mut r), Ok(0x0102_0304_0506_0708));
    let mut r = reader(&[1, 2, 3, 4, 5, 6, 7, 8]);
    assert_eq!(u64_le(&mut r), Ok(0x0807_0605_0403_0201));
}

#[test]
fn reads_signed_integers_in_both_orders() {
    let mut r = reader(&[0xFF, 0xFE]);
    assert_eq!(i16_be(&mut r), Ok(-2));
    let mut r = reader(&[0xFE, 0xFF]);
    assert_eq!(i16_le(&mut r), Ok(-2));
    let mut r = reader(&[0xFF, 0xFF, 0xFF, 0x9C]);
    assert_eq!(i32_be(&mut r), Ok(-100));
    let mut r = reader(&[0x9C, 0xFF, 0xFF, 0xFF]);
    assert_eq!(i32_le(&mut r), Ok(-100));
    let mut r = reader(&[0x80, 0, 0, 0, 0, 0, 0, 0]);
    assert_eq!(i64_be(&mut r), Ok(i64::MIN));
    let mut r = reader(&[0xFF, 0xFF, 0xFF, 0xFF, 0xFF, 0xFF, 0xFF, 0x7F]);
    assert_eq!(i64_le(&mut r), Ok(i64::MAX));
}

#[test]
fn reading_past_the_end_fails() {
    let mut r = reader(&[1, 2, 3]);
    assert_eq!(u32_le(&mut r), Err(UnpackError::UnexpectedEof));
    let mut r = reader(&[]);
    assert_eq!(byte(&mut r), Err(UnpackError::UnexpectedEof));
    let mut r = reader(&[7]);
    assert_eq!(byte(&mut r), Ok(7));
    assert_eq!(byte(&mut r), Err(UnpackError::UnexpectedEof));
}

#[test]
fn reads_zero_terminated_strings() {
    let mut r = reader(b"UnityFS\0rest");
    assert_eq!(cstring(&mut r), Ok("UnityFS".to_string()));
    assert_eq!(r.stream_position(), 8);
    // without a terminator the read goes to the end, and the last byte is
    // dropped as if it were the terminator
    let mut r = reader(b"no end");
    assert_eq!(cstring(&mut r), Ok("no en".to_string()));
    assert_eq!(r.stream_position(), 6);
    let mut r = reader(&[0xFF, 0xFE, 0]);
    assert_eq!(cstring(&mut r), Err(UnpackError::InvalidUtf8));
}

#[test]
fn aligned_bytes_skip_padding() {
    let mut r = reader(&[3, 0, 0, 0, b'a', b'b', b'c', 0, 9]);
    assert_eq!(aligned_bytes(&mut r), Ok(b"abc".to_vec()));
    assert_eq!(r.stream_position(), 8);
    let mut r = reader(&[2, 0, 0, 0, b'h', b'i', 0, 0]);
    assert_eq!(aligned_string(&mut r), Ok("hi".to_string()));
    let mut r = reader(&[5, 0, 0, 0, b'a']);
    assert_eq!(aligned_bytes(&mut r), Err(UnpackError::UnexpectedEof));
    let mut r = reader(&[1, 0, 0, 0, 0xC3, 0, 0, 0]);
    assert_eq!(aligned_string(&mut r), Err(UnpackError::InvalidUtf8));
}

#[test]
fn alignment_moves_to_the_next_multiple_of_four() {
    let mut r = reader(&[0; 16]);
    r.seek_start(5);
    assert_eq!(align4(&mut r, 0), Ok(()));
    assert_eq!(r.stream_position(), 8);
    assert_eq!(align4(&mut r, 0), Ok(()));
    assert_eq!(r.stream_position(), 8);
    r.seek_start(6);
    assert_eq!(align4(&mut r, 1), Ok(()));
    assert_eq!(r.stream_position(), 9);
    r.seek_start(2);
    assert_eq!(align4(&mut r, 3), Err(UnpackError::PositionBeforeBase));
    r.seek_start(u64::MAX - 1);
    assert_eq!(align4(&mut r, 0), Err(UnpackError::InvalidSeek));
}

#[test]
fn seeks_and_exact_reads() {
    let mut r = reader(&[10, 20, 30, 40]);
    assert_eq!(r.len(), 4);
    assert_eq!(r.seek_current(2), Ok(2));
    assert_eq!(r.read_exact(2), Ok(vec![30, 40]));
    assert_eq!(r.read_exact(1), Err(UnpackError::UnexpectedEof));
    assert_eq!(r.seek_current(-5), Err(UnpackError::InvalidSeek));
    assert_eq!(r.stream_position(), 4);
    r.seek_start(100);
    assert_eq!(r.read_exact(0), Err(UnpackError::UnexpectedEof));
}
