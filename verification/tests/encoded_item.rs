use dex_class::encoded_item::{decode_entries, decode_indices};
use dex_class::error::DecodeError;
use dex_class::leb128::{encode_uleb128, read_uleb128};

fn delta_bytes(indices: &[u32]) -> Vec<u8> {
    let mut bytes = Vec::new();
    let mut prev = 0;
    for index in indices {
        bytes.extend(encode_uleb128(index - prev));
        prev = *index;
    }
    bytes
}

fn round_trip(indices: &[u32]) {
    let bytes = delta_bytes(indices);
    let mut offset = 0;
    let found = decode_indices(&bytes, &mut offset, indices.len() as u32);
    assert_eq!(found, Ok(indices.to_vec()));
    assert_eq!(offset, bytes.len());
}

fn ascending(len: usize, seed: u32, gap: u32) -> Vec<u32> {
    let mut indices = Vec::new();
    let mut state = seed;
    let mut index: u32 = 0;
    for _ in 0..len {
        state = state.wrapping_mul(1664525).wrapping_add(1013904223);
        index += (state >> 8) % gap;
        indices.push(index);
    }
    indices
}

#[test]
fn no_index_round_trip() {
    round_trip(&[]);
}

#[test]
fn one_index_round_trip() {
    round_trip(&[0]);
    round_trip(&[5]);
    round_trip(&[u32::MAX]);
}

#[test]
fn two_indices_round_trip() {
    round_trip(&[3, 3]);
    round_trip(&[0, 200]);
    round_trip(&[7, u32::MAX]);
}

#[test]
fn hundred_indices_round_trip() {
    round_trip(&ascending(100, 1, 3));
    round_trip(&ascending(100, 2, 1000));
    round_trip(&ascending(100, 3, 40_000_000));
}

#[test]
fn hundred_and_one_indices_round_trip() {
    round_trip(&ascending(101, 4, 2));
    round_trip(&ascending(101, 5, 20_000));
}

#[test]
fn differences_are_summed_up() {
    let bytes = [0x02, 0x03, 0x00, 0x80, 0x01];
    let mut offset = 0;
    assert_eq!(decode_indices(&bytes, &mut offset, 4), Ok(vec![2, 5, 5, 133]));
    assert_eq!(offset, 5);
}

#[test]
fn only_the_announced_indices_are_read() {
    let bytes = [0x02, 0x03, 0x04];
    let mut offset = 0;
    assert_eq!(decode_indices(&bytes, &mut offset, 2), Ok(vec![2, 5]));
    assert_eq!(offset, 2);
}

#[test]
fn count_of_zero_reads_nothing() {
    let mut offset = 1;
    assert_eq!(decode_indices(&[0x80, 0x80], &mut offset, 0), Ok(vec![]));
    assert_eq!(offset, 1);
    let mut behind = 50;
    assert_eq!(decode_indices(&[], &mut behind, 0), Ok(vec![]));
    assert_eq!(behind, 50);
}

#[test]
fn missing_entry_is_truncated() {
    let bytes = [0x02, 0x03];
    let mut offset = 0;
    assert_eq!(decode_indices(&bytes, &mut offset, 3), Err(DecodeError::Truncated { offset: 2 }));
    assert_eq!(offset, 0);
}

#[test]
fn index_beyond_32_bits_is_invalid() {
    let mut bytes = encode_uleb128(u32::MAX);
    bytes.extend(encode_uleb128(1));
    let mut offset = 0;
    assert_eq!(decode_indices(&bytes, &mut offset, 2), Err(DecodeError::InvalidId { id: 1 }));
    assert_eq!(offset, 0);
    let mut large = encode_uleb128(0x8000_0000);
    large.extend(encode_uleb128(0x8000_0000));
    let mut offset = 0;
    assert_eq!(
        decode_indices(&large, &mut offset, 2),
        Err(DecodeError::InvalidId { id: 0x8000_0000 })
    );
}

#[test]
fn entries_with_payload() {
    // Each entry: difference, then one integer of payload.
    let bytes = [0x01, 0x0a, 0x02, 0x0b, 0x00, 0x8c, 0x01];
    let decode = |pos: usize, index: u32| {
        let mut at = pos;
        let payload = read_uleb128(&bytes, &mut at)?;
        Ok(((index, payload), at))
    };
    let mut offset = 0;
    let found = decode_entries(&bytes, &mut offset, 3, &decode);
    assert_eq!(found, Ok(vec![(1, 10), (3, 11), (3, 140)]));
    assert_eq!(offset, 7);
}

#[test]
fn decoder_is_handed_the_offset_behind_the_difference() {
    let bytes = [0x81, 0x01, 0xaa, 0x05, 0xbb];
    let decode = |pos: usize, index: u32| Ok::<_, DecodeError>(((pos, index, bytes[pos]), pos + 1));
    let mut offset = 0;
    let found = decode_entries(&bytes, &mut offset, 2, &decode);
    assert_eq!(found, Ok(vec![(2, 129, 0xaa), (4, 134, 0xbb)]));
    assert_eq!(offset, 5);
}

#[test]
fn failure_of_the_decoder_ends_the_array() {
    let bytes = [0x01, 0x01, 0x01, 0x01];
    let decode = |pos: usize, index: u32| {
        if index == 3 {
            Err(DecodeError::Malformed)
        } else {
            Ok((index, pos))
        }
    };
    let mut offset = 0;
    let found = decode_entries(&bytes, &mut offset, 4, &decode);
    assert_eq!(found, Err(DecodeError::Malformed));
    assert_eq!(offset, 0);
    let mut offset = 0;
    let found = decode_entries(&bytes, &mut offset, 2, &decode);
    assert_eq!(found, Ok(vec![1, 2]));
    assert_eq!(offset, 2);
}

#[test]
fn decoder_is_not_called_without_entries() {
    let decode = |_: usize, _: u32| -> Result<(u32, usize), DecodeError> {
        panic!("no entry to decode")
    };
    let mut offset = 3;
    assert_eq!(decode_entries(&[1, 2, 3, 4], &mut offset, 0, &decode), Ok(vec![]));
    assert_eq!(offset, 3);
}

#[test]
fn truncated_difference_comes_before_the_decoder() {
    let bytes = [0x01, 0x80];
    let decode = |pos: usize, index: u32| Ok::<_, DecodeError>((index, pos));
    let mut offset = 0;
    let found = decode_entries(&bytes, &mut offset, 2, &decode);
    assert_eq!(found, Err(DecodeError::Truncated { offset: 1 }));
    assert_eq!(offset, 0);
}
