use dex_class::error::DecodeError;
use dex_class::source::{read_u32, Endian, WORD_SIZE};

fn read_at(bytes: &[u8], at: usize, endian: Endian) -> (Result<u32, DecodeError>, usize) {
    let mut offset = at;
    let r = read_u32(bytes, &mut offset, endian);
    (r, offset)
}

#[test]
fn word_in_little_endian() {
    let bytes = [0x78, 0x56, 0x34, 0x12];
    assert_eq!(read_at(&bytes, 0, Endian::Little), (Ok(0x1234_5678), 4));
}

#[test]
fn word_in_big_endian() {
    let bytes = [0x78, 0x56, 0x34, 0x12];
    assert_eq!(read_at(&bytes, 0, Endian::Big), (Ok(0x7856_3412), 4));
}

#[test]
fn word_at_an_offset() {
    let bytes = [0xaa, 0x01, 0x00, 0x00, 0x80, 0xbb];
    assert_eq!(read_at(&bytes, 1, Endian::Little), (Ok(0x8000_0001), 5));
    assert_eq!(read_at(&bytes, 1, Endian::Big), (Ok(0x0100_0080), 5));
    assert_eq!(read_at(&bytes, 2, Endian::Big), (Ok(0x0000_80bb), 6));
}

#[test]
fn word_that_crosses_the_end_is_truncated() {
    let bytes = [1, 2, 3, 4, 5];
    assert_eq!(WORD_SIZE, 4);
    assert_eq!(read_at(&bytes, 2, Endian::Little), (Err(DecodeError::Truncated { offset: 2 }), 2));
    assert_eq!(read_at(&bytes, 5, Endian::Little), (Err(DecodeError::Truncated { offset: 5 }), 5));
    assert_eq!(read_at(&bytes, 77, Endian::Big), (Err(DecodeError::Truncated { offset: 77 }), 77));
    assert_eq!(read_at(&[], 0, Endian::Big), (Err(DecodeError::Truncated { offset: 0 }), 0));
}

#[test]
fn offset_near_the_largest_is_truncated() {
    let bytes = [1, 2, 3, 4];
    let at = usize::MAX - 1;
    assert_eq!(read_at(&bytes, at, Endian::Little), (Err(DecodeError::Truncated { offset: at }), at));
}
