use png_decoder::{sum_big_endian, DecodeError, Png, Stream};

#[test]
fn stream_reads_advance_and_refuse_past_the_end() {
    let bytes = vec![1u8, 2, 3, 4, 5, 6, 7];
    let mut s = Stream::new();
    assert_eq!(s.read_u8(&bytes), Ok(1));
    assert_eq!(s.read_u16_be(&bytes), Ok(0x0203));
    assert_eq!(s.read_u32_be(&bytes), Ok(0x04050607));
    assert_eq!(s.sequential_counter, 7);
    assert_eq!(s.read_u8(&bytes), Err(DecodeError::OutOfBounds));
    assert_eq!(s.sequential_counter, 7);
}

#[test]
fn failed_range_read_does_not_move() {
    let bytes = vec![1u8, 2, 3];
    let mut s = Stream::new();
    assert_eq!(s.read_bytes_sequential(&bytes, 2), Ok(vec![1, 2]));
    assert_eq!(s.read_bytes_sequential(&bytes, 2), Err(DecodeError::OutOfBounds));
    assert_eq!(s.sequential_counter, 2);
    assert_eq!(s.read_bytes_sequential(&bytes, 1), Ok(vec![3]));
}

#[test]
fn null_terminated_string_counts_without_terminator() {
    let bytes = b"abc\0de\0f".to_vec();
    let mut s = Stream::new();
    assert_eq!(s.read_null_terminated_string(&bytes), Ok(("abc".to_string(), 3)));
    assert_eq!(s.sequential_counter, 4);
    assert_eq!(s.read_null_terminated_string(&bytes), Ok(("de".to_string(), 2)));
    assert_eq!(s.read_null_terminated_string(&bytes), Err(DecodeError::OutOfBounds));
    assert_eq!(s.sequential_counter, 7);
}

#[test]
fn null_terminated_string_must_be_utf8() {
    let bytes = vec![0xc3, 0x28, 0];
    let mut s = Stream::new();
    assert_eq!(s.read_null_terminated_string(&bytes), Err(DecodeError::TextDecodingError));
    let bytes = vec![0xc3, 0xa9, 0];
    let mut s = Stream::new();
    assert_eq!(s.read_null_terminated_string(&bytes), Ok(("\u{e9}".to_string(), 2)));
}

#[test]
fn big_endian_sum() {
    assert_eq!(sum_big_endian(&[0x12, 0x34, 0x56, 0x78]), Ok(0x12345678));
    assert_eq!(sum_big_endian(&[0xff, 0xff, 0xff, 0xff]), Ok(u32::MAX));
    assert_eq!(sum_big_endian(&[1, 2, 3]), Err(DecodeError::OutOfBounds));
}

#[test]
fn session_readers() {
    let mut bytes = vec![137u8, 80, 78, 71, 13, 10, 26, 10];
    bytes.extend_from_slice(b"hi\0");
    bytes.extend_from_slice(&[0x01, 0x02, 0xaa, 0xbb, 0xcc, 0xdd, 9, 8, 7, 6, 5, 4]);
    bytes.extend_from_slice(b"ok");
    let mut png = Png::new(bytes).unwrap();
    assert!(png.signature_verified());
    assert_eq!(png.position(), 8);
    assert_eq!(png.read_null_terminated_string(), Ok(("hi".to_string(), 2)));
    assert_eq!(png.big_endian_u16(), Ok(0x0102));
    assert_eq!(png.big_endian_u32(), Ok(0xaabbccdd));
    assert_eq!(png.get_u8(), Ok(9));
    assert_eq!(png.get_u16(), Ok(vec![8, 7]));
    assert_eq!(png.read_bytes(3), Ok(vec![6, 5, 4]));
    assert_eq!(png.get_u32(), Err(DecodeError::OutOfBounds));
    assert_eq!(png.get_string(3), Err(DecodeError::OutOfBounds));
    assert_eq!(png.position(), 23);
    assert_eq!(png.get_string(2), Ok("ok".to_string()));
    assert_eq!(png.position(), 25);
}

#[test]
fn chunk_body_is_read_whole_or_not_at_all() {
    let mut bytes = vec![137u8, 80, 78, 71, 13, 10, 26, 10];
    bytes.extend_from_slice(&[1, 2, 3, 4, 5, 6]);
    let mut png = Png::new(bytes).unwrap();
    assert_eq!(png.read_body(3), Err(DecodeError::OutOfBounds));
    assert_eq!(png.position(), 8);
    assert_eq!(png.read_body(2), Ok((vec![1, 2], vec![3, 4, 5, 6])));
    assert_eq!(png.position(), 14);
}
