use chunker::errors::Errors;
use chunker::read::FrameBuffer;
use chunker::util::{bit_at, read_u32, to_vec_u32};

#[test]
fn bit_at_tests_single_bits() {
    assert!(bit_at(0b00001, 0));
    assert!(!bit_at(0b00001, 1));
    assert!(bit_at(0b10010, 1));
    assert!(bit_at(0b10010, 4));
    assert!(!bit_at(0b10010, 3));
    assert!(bit_at(0x80, 7));
    // A byte has no bit at position 8 or above.
    assert!(!bit_at(0xff, 8));
    assert!(!bit_at(0xff, 31));
}

#[test]
fn read_u32_is_little_endian() {
    assert_eq!(read_u32(&vec![0x78, 0x56, 0x34, 0x12]).unwrap(), 0x12345678);
    // Bytes past the first four are ignored.
    assert_eq!(read_u32(&vec![1, 0, 0, 0, 0xff, 0xff]).unwrap(), 1);
    assert_eq!(read_u32(&vec![0xff, 0xff, 0xff, 0xff]).unwrap(), u32::MAX);
}

#[test]
fn read_u32_short_input_is_parse_error() {
    assert_eq!(read_u32(&vec![1, 2, 3]).unwrap_err(), Errors::ParseError);
    assert_eq!(read_u32(&Vec::new()).unwrap_err(), Errors::ParseError);
}

#[test]
fn to_vec_u32_decodes_complete_groups() {
    let bytes = vec![1, 0, 0, 0, 0x78, 0x56, 0x34, 0x12];
    assert_eq!(to_vec_u32(bytes), vec![1, 0x12345678]);
    // A trailing incomplete group is ignored.
    let bytes = vec![2, 0, 0, 0, 9, 9];
    assert_eq!(to_vec_u32(bytes), vec![2]);
    assert_eq!(to_vec_u32(Vec::new()), Vec::<u32>::new());
}

#[test]
fn frame_buffer_collects_exactly_the_frame() {
    let mut f = FrameBuffer::new(4);
    assert_eq!(f.needed(), 4);
    assert!(!f.is_complete());
    assert!(!f.push_chunk(&vec![b'A', b'B']));
    assert!(f.push_chunk(&vec![b'C', b'D', b'E']));
    assert!(f.is_complete());
    // Only the first `needed` bytes form the frame.
    assert_eq!(f.take_frame().unwrap(), b"ABCD".to_vec());
}

#[test]
fn frame_buffer_short_close_is_short_read() {
    // The stream closes one byte short of the chunk length.
    let mut f = FrameBuffer::new(4);
    f.push_chunk(&vec![1, 2, 3]);
    assert!(!f.is_complete());
    assert_eq!(f.take_frame().unwrap_err(), Errors::ShortRead);

    let empty = FrameBuffer::new(1);
    assert_eq!(empty.take_frame().unwrap_err(), Errors::ShortRead);
}

#[test]
fn frame_buffer_zero_length_frame() {
    let f = FrameBuffer::new(0);
    assert!(f.is_complete());
    assert_eq!(f.take_frame().unwrap(), Vec::<u8>::new());
}
