use midifile::smf::SMFError;
use midifile::utils::{
    read_all, read_big_endian_u16, read_big_endian_u32, read_vector, vector_to_big_endian_u32,
    ByteReader,
};

#[test]
fn reader_starts_at_first_byte() {
    let bytes = [1u8, 2, 3];
    let mut reader = ByteReader::new(&bytes);
    assert_eq!(reader.remaining(), 3);
    assert_eq!(reader.peek(), Some(1));
    assert_eq!(reader.read_u8(), Ok(1));
    assert_eq!(reader.peek(), Some(2));
    assert_eq!(reader.read_u8(), Ok(2));
    assert_eq!(reader.read_u8(), Ok(3));
    assert_eq!(reader.remaining(), 0);
    assert_eq!(reader.peek(), None);
    assert_eq!(reader.read_u8(), Err(SMFError::IoError));
}

#[test]
fn read_all_fills_buffer_in_stream_order() {
    let bytes = [10u8, 20, 30, 40, 50];
    let mut reader = ByteReader::new(&bytes);
    let mut buffer = [0u8; 3];
    assert_eq!(read_all(&mut reader, &mut buffer), Ok(3));
    assert_eq!(buffer, [10, 20, 30]);
    assert_eq!(reader.remaining(), 2);
    assert_eq!(reader.peek(), Some(40));
}

#[test]
fn read_all_with_empty_buffer_reads_nothing() {
    let bytes = [10u8];
    let mut reader = ByteReader::new(&bytes);
    let mut buffer = [0u8; 0];
    assert_eq!(read_all(&mut reader, &mut buffer), Ok(0));
    assert_eq!(reader.remaining(), 1);
}

#[test]
fn read_all_fails_when_source_is_short() {
    let bytes = [10u8, 20];
    let mut reader = ByteReader::new(&bytes);
    let mut buffer = [7u8; 3];
    assert_eq!(read_all(&mut reader, &mut buffer), Err(SMFError::IoError));
    assert_eq!(buffer, [7, 7, 7]);
    assert_eq!(reader.remaining(), 2);
}

#[test]
fn read_u32_is_big_endian() {
    let bytes = [0x12u8, 0x34, 0x56, 0x78, 0x9a];
    let mut reader = ByteReader::new(&bytes);
    assert_eq!(read_big_endian_u32(&mut reader), Ok(0x1234_5678));
    assert_eq!(reader.remaining(), 1);
    assert_eq!(read_big_endian_u32(&mut reader), Err(SMFError::IoError));
    assert_eq!(reader.remaining(), 1);
}

#[test]
fn read_u32_largest_value() {
    let bytes = [0xffu8, 0xff, 0xff, 0xff];
    let mut reader = ByteReader::new(&bytes);
    assert_eq!(read_big_endian_u32(&mut reader), Ok(u32::MAX));
}

#[test]
fn read_u16_is_big_endian() {
    let bytes = [0x00u8, 0x60, 0xff, 0xfe, 0x01];
    let mut reader = ByteReader::new(&bytes);
    assert_eq!(read_big_endian_u16(&mut reader), Ok(96));
    assert_eq!(read_big_endian_u16(&mut reader), Ok(0xfffe));
    assert_eq!(read_big_endian_u16(&mut reader), Err(SMFError::IoError));
    assert_eq!(reader.remaining(), 1);
}

#[test]
fn vector_to_u32_is_big_endian() {
    assert_eq!(vector_to_big_endian_u32(&mut vec![]), 0);
    assert_eq!(vector_to_big_endian_u32(&mut vec![0x2a]), 0x2a);
    assert_eq!(vector_to_big_endian_u32(&mut vec![0x07, 0xa1, 0x20]), 500_000);
    assert_eq!(vector_to_big_endian_u32(&mut vec![0x12, 0x34, 0x56, 0x78]), 0x1234_5678);
}

#[test]
fn vector_to_u32_keeps_low_32_bits_of_longer_input() {
    assert_eq!(vector_to_big_endian_u32(&mut vec![0x01, 0x12, 0x34, 0x56, 0x78]), 0x1234_5678);
    assert_eq!(vector_to_big_endian_u32(&mut vec![0xff, 0xff, 0x00, 0x00, 0x00, 0x01]), 1);
}

#[test]
fn vector_to_u32_leaves_input_alone() {
    let mut data = vec![1u8, 2, 3];
    assert_eq!(vector_to_big_endian_u32(&mut data), 0x01_0203);
    assert_eq!(data, vec![1, 2, 3]);
}

#[test]
fn read_vector_takes_exactly_length_bytes() {
    let bytes = [1u8, 2, 3, 4, 5];
    let mut reader = ByteReader::new(&bytes);
    assert_eq!(read_vector(&mut reader, 2), Ok(vec![1, 2]));
    assert_eq!(read_vector(&mut reader, 0), Ok(vec![]));
    assert_eq!(read_vector(&mut reader, 3), Ok(vec![3, 4, 5]));
    assert_eq!(reader.remaining(), 0);
}

#[test]
fn read_vector_fails_when_source_is_short() {
    let bytes = [1u8, 2, 3];
    let mut reader = ByteReader::new(&bytes);
    assert_eq!(read_vector(&mut reader, 4), Err(SMFError::IoError));
    assert_eq!(read_vector(&mut reader, u32::MAX), Err(SMFError::IoError));
    assert_eq!(reader.remaining(), 3);
}
