use ak_assets::error::UnpackError;
use ak_assets::unpacker::lz4inv::decompress;

#[test]
fn literal_only_stream_decodes_to_its_literals() {
    assert_eq!(decompress(&[3, b'a', b'b', b'c'], 3), Ok(b"abc".to_vec()));
    assert_eq!(decompress(&[], 0), Ok(vec![]));
}

#[test]
fn long_literal_run_uses_extra_length_bytes() {
    let lits: Vec<u8> = (0..300u32).map(|i| (i % 251) as u8).collect();
    let mut stream = vec![0x0F, 255, 30];
    stream.extend_from_slice(&lits);
    assert_eq!(decompress(&stream, 300), Ok(lits));
}

#[test]
fn match_at_offset_one_repeats_the_last_byte() {
    // one literal 'x', then a match of 4 + 2 bytes at big-endian offset 1,
    // then an empty literal run that ends the stream
    let stream = [0x21, b'x', 0, 1, 0x00];
    assert_eq!(decompress(&stream, 7), Ok(vec![b'x'; 7]));
}

#[test]
fn match_copies_an_earlier_run() {
    // "ab", then a match of 4 at offset 2: "ababab"
    let stream = [0x02, b'a', b'b', 0, 2, 0x00];
    assert_eq!(decompress(&stream, 6), Ok(b"ababab".to_vec()));
}

#[test]
fn output_may_exceed_the_requested_size() {
    assert_eq!(decompress(&[3, 1, 2, 3], 2), Ok(vec![1, 2, 3]));
}

#[test]
fn each_lz4inv_error_has_its_input() {
    assert_eq!(decompress(&[], 1), Err(UnpackError::Lz4InvInputTruncated));
    assert_eq!(decompress(&[0x0F], 20), Err(UnpackError::Lz4InvLitLenTruncated));
    assert_eq!(decompress(&[5, 1, 2], 5), Err(UnpackError::Lz4InvLiteralOutOfBounds));
    assert_eq!(decompress(&[1, 9, 0], 5), Err(UnpackError::Lz4InvOffsetTruncated));
    assert_eq!(decompress(&[1, 9, 0, 0], 5), Err(UnpackError::Lz4InvZeroOffset));
    assert_eq!(decompress(&[0xF1, 9, 0, 1], 30), Err(UnpackError::Lz4InvMatchLenTruncated));
    assert_eq!(decompress(&[1, 9, 0, 2], 5), Err(UnpackError::Lz4InvOffsetOutOfRange));
}

#[test]
fn smaller_target_gives_a_prefix() {
    // "ab", a match of 4 at offset 2, then the literals "cd"
    let stream = [0x02, b'a', b'b', 0, 2, 0x02, b'c', b'd'];
    let full = decompress(&stream, 8).unwrap();
    assert_eq!(full, b"ababab\x63\x64".to_vec());
    let part = decompress(&stream, 3).unwrap();
    assert_eq!(part, b"ababab".to_vec());
    assert!(full.starts_with(&part));
    let two = decompress(&stream, 2).unwrap();
    assert_eq!(two, b"ab".to_vec());
}
