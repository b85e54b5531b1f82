use portal_core::codec::{decode_map, read_varint, serialize_map, write_varint, Key, Pair};

fn varint(n: u64) -> Vec<u8> {
    let mut buf = Vec::new();
    write_varint(&mut buf, n);
    buf
}

fn pair(t: u8, key: &[u8], value: &[u8]) -> Pair {
    Pair { key: Key { type_value: t, key: key.to_vec() }, value: value.to_vec() }
}

#[test]
fn varint_single_byte_below_marker() {
    assert_eq!(varint(0), vec![0x00]);
    assert_eq!(varint(0xfc), vec![0xfc]);
}

#[test]
fn varint_two_byte_form() {
    assert_eq!(varint(0xfd), vec![0xfd, 0xfd, 0x00]);
    assert_eq!(varint(0xffff), vec![0xfd, 0xff, 0xff]);
}

#[test]
fn varint_four_and_eight_byte_forms() {
    assert_eq!(varint(0x1_0000), vec![0xfe, 0x00, 0x00, 0x01, 0x00]);
    assert_eq!(varint(0x1_0000_0000), vec![0xff, 0, 0, 0, 0, 1, 0, 0, 0]);
    assert_eq!(varint(u64::MAX), vec![0xff, 0xff, 0xff, 0xff, 0xff, 0xff, 0xff, 0xff, 0xff]);
}

#[test]
fn varint_reads_back() {
    for n in [0u64, 1, 0xfc, 0xfd, 0xffff, 0x1_0000, 0xffff_ffff, 0x1_0000_0000, u64::MAX] {
        let bytes = varint(n);
        assert_eq!(read_varint(&bytes, 0), Some((n, bytes.len())));
    }
}

#[test]
fn varint_rejects_non_minimal_and_short() {
    assert_eq!(read_varint(&vec![0xfd, 0x10, 0x00], 0), None);
    assert_eq!(read_varint(&vec![0xfe, 0xff, 0xff, 0x00, 0x00], 0), None);
    assert_eq!(read_varint(&vec![0xfd, 0x10], 0), None);
    assert_eq!(read_varint(&vec![], 0), None);
}

#[test]
fn key_and_pair_encoding() {
    let p = pair(0x02, &[1, 2, 3], &[9, 9]);
    assert_eq!(p.key.serialize(), vec![0x04, 0x02, 1, 2, 3]);
    assert_eq!(p.serialize(), vec![0x04, 0x02, 1, 2, 3, 0x02, 9, 9]);
}

#[test]
fn map_encoding_ends_with_zero() {
    assert_eq!(serialize_map(&vec![]), vec![0x00]);
    let bytes = serialize_map(&vec![pair(0x13, &[], &[7])]);
    assert_eq!(bytes, vec![0x01, 0x13, 0x01, 0x07, 0x00]);
}

#[test]
fn map_round_trip_keeps_order() {
    let pairs = vec![pair(0x02, &[0xaa; 33], &[0x30; 71]), pair(0x13, &[], &[0x55; 64]), pair(0x14, &[0xbb; 64], &[0x66; 65])];
    let mut bytes = serialize_map(&pairs);
    let len = bytes.len();
    bytes.extend_from_slice(&[0xde, 0xad]);
    let (decoded, used) = decode_map(&bytes, 0).unwrap();
    assert_eq!(used, len);
    assert_eq!(decoded, pairs);
}

#[test]
fn decode_map_from_offset_and_truncated() {
    let pairs = vec![pair(0x02, &[1], &[2])];
    let mut bytes = vec![0xff, 0xff];
    bytes.extend(serialize_map(&pairs));
    assert_eq!(decode_map(&bytes, 2), Some((pairs, bytes.len() - 2)));
    let truncated = vec![0x02, 0x02, 0x01, 0x05, 0x01];
    assert_eq!(decode_map(&truncated, 0), None);
}
