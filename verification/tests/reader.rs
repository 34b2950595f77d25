use term3d::reader::{ReadError, Reader};

#[test]
fn reads_little_endian_numbers() {
    let data = [0x34u8, 0x12, 0x78, 0x56, 0x34, 0x12, 0xff];
    let mut reader = Reader::new_le(&data);
    assert_eq!(reader.read_prim::<u16>(), Ok(0x1234));
    assert_eq!(reader.read_prim::<u32>(), Ok(0x12345678));
    assert_eq!(reader.read_prim::<i8>(), Ok(-1));
    assert_eq!(reader.position(), 7);
}

#[test]
fn reads_big_endian_numbers() {
    let data = [0x12u8, 0x34, 0xff, 0xfe, 0x80, 0, 0, 0, 0, 0, 0, 1];
    let mut reader = Reader::new_be(&data);
    assert_eq!(reader.read_prim::<u16>(), Ok(0x1234));
    assert_eq!(reader.read_prim::<i16>(), Ok(-2));
    assert_eq!(reader.read_prim::<i64>(), Ok(i64::MIN + 1));
}

#[test]
fn reads_every_width() {
    let data = [1u8, 2, 3, 4, 5, 6, 7, 8, 9, 10, 11, 12, 13, 14, 15];
    let mut reader = Reader::new_le(&data);
    assert_eq!(reader.read_prim::<u8>(), Ok(1));
    assert_eq!(reader.read_prim::<u16>(), Ok(0x0302));
    assert_eq!(reader.read_prim::<u32>(), Ok(0x07060504));
    assert_eq!(reader.read_prim::<u64>(), Ok(0x0f0e0d0c0b0a0908));
}

#[test]
fn signed_numbers_agree_with_the_standard_library() {
    let data = [0x80u8, 0x00, 0x80, 0x00, 0x00, 0x00, 0x80, 0xff, 0xff, 0xff, 0xff, 0xff, 0xff, 0xff, 0x7f];
    let mut reader = Reader::new_le(&data);
    assert_eq!(reader.read_prim::<i8>(), Ok(i8::from_le_bytes([0x80])));
    assert_eq!(reader.read_prim::<i16>(), Ok(i16::from_le_bytes([0x00, 0x80])));
    assert_eq!(reader.read_prim::<i32>(), Ok(i32::from_le_bytes([0x00, 0x00, 0x00, 0x80])));
    assert_eq!(reader.read_prim::<i64>(), Ok(i64::MAX));
}

#[test]
fn reads_arrays_element_by_element() {
    let data = [b'g', b'l', b'T', b'F', 1, 0, 2, 0, 3];
    let mut reader = Reader::new_le(&data);
    assert_eq!(reader.read_prim::<[u8; 4]>(), Ok(*b"glTF"));
    assert_eq!(reader.read_prim::<[u16; 2]>(), Ok([1, 2]));
    assert_eq!(reader.read_prim::<[u8; 0]>(), Ok([]));
    assert_eq!(reader.read_prim::<[u16; 1]>(), Err(ReadError::UnexpectedEof));
}

#[test]
fn a_failed_read_exhausts_the_reader() {
    let data = [1u8, 2, 3];
    let mut reader = Reader::new_le(&data);
    assert_eq!(reader.read_prim::<u32>(), Err(ReadError::UnexpectedEof));
    assert_eq!(reader.position(), 3);
    assert_eq!(reader.read_prim::<u8>(), Err(ReadError::UnexpectedEof));
}

#[test]
fn read_buf_copies_the_next_bytes() {
    let data = [1u8, 2, 3, 4, 5];
    let mut reader = Reader::new_be(&data);
    assert_eq!(reader.read_buf(2), Ok(vec![1, 2]));
    assert_eq!(reader.read_buf(0), Ok(vec![]));
    assert_eq!(reader.read_buf(4), Err(ReadError::UnexpectedEof));
    assert_eq!(reader.read_buf(0), Ok(vec![]));
    assert_eq!(reader.read_buf(1), Err(ReadError::UnexpectedEof));
}

#[test]
fn float_bits_survive_the_read() {
    let bytes = 1.5f32.to_le_bytes();
    let mut reader = Reader::new_le(&bytes);
    let bits = reader.read_prim::<u32>().unwrap();
    assert_eq!(f32::from_bits(bits), 1.5);
}
