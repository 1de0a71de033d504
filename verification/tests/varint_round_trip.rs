//! The VarUInt and VarInt codec on concrete values.
use diar::varint::{decode_varuint, encode_varint, encode_varuint};

fn encode(n: u64) -> Vec<u8> {
    let mut out = Vec::new();
    encode_varuint(&mut out, n);
    out
}

#[test]
fn encodes_small_values_in_one_byte() {
    assert_eq!(encode(0), vec![0x00]);
    assert_eq!(encode(1), vec![0x01]);
    assert_eq!(encode(127), vec![0x7F]);
}

#[test]
fn encodes_multi_byte_values_little_endian_septets() {
    assert_eq!(encode(128), vec![0x80, 0x01]);
    assert_eq!(encode(300), vec![0xAC, 0x02]);
    assert_eq!(encode(0x7F7F), vec![0xFF, 0xFE, 0x01]);
}

#[test]
fn encoding_length_is_between_one_and_ten() {
    for n in [0u64, 1, 127, 128, 16383, 16384, u32::MAX as u64, u64::MAX] {
        let e = encode(n);
        assert!(1 <= e.len() && e.len() <= 10, "length {} for {}", e.len(), n);
    }
    assert_eq!(encode(u64::MAX).len(), 10);
}

#[test]
fn decode_inverts_encode() {
    for n in [
        0u64,
        1,
        42,
        127,
        128,
        129,
        300,
        16384,
        u32::MAX as u64,
        u64::MAX - 1,
        u64::MAX,
    ] {
        let e = encode(n);
        let (v, used) = decode_varuint(&e, 0).expect("decodes");
        assert_eq!(v, n);
        assert_eq!(used, e.len());
    }
}

#[test]
fn decode_reads_from_an_offset_and_ignores_trailing_bytes() {
    let mut buf = vec![0xFFu8, 0xFF];
    encode_varuint(&mut buf, 300);
    buf.push(0x55);
    let (v, used) = decode_varuint(&buf, 2).expect("decodes");
    assert_eq!(v, 300);
    assert_eq!(used, 2);
}

#[test]
fn decode_refuses_truncated_input() {
    assert_eq!(decode_varuint(&[], 0), None);
    assert_eq!(decode_varuint(&[0x80], 0), None);
    assert_eq!(decode_varuint(&[0x80, 0x80], 0), None);
}

#[test]
fn decode_refuses_values_beyond_sixty_four_bits() {
    // Eleven septets of all ones: 2^77 - 1, far past u64::MAX.
    let buf = [0xFFu8, 0xFF, 0xFF, 0xFF, 0xFF, 0xFF, 0xFF, 0xFF, 0xFF, 0xFF, 0x7F];
    assert_eq!(decode_varuint(&buf, 0), None);
}

#[test]
fn decode_accepts_non_canonical_zero_padding() {
    // 0 written in two bytes still decodes to 0.
    let buf = [0x80u8, 0x00];
    assert_eq!(decode_varuint(&buf, 0), Some((0, 2)));
}

#[test]
fn varint_zigzags_before_encoding() {
    let mut out = Vec::new();
    encode_varint(&mut out, 0);
    assert_eq!(out, vec![0x00]);
    let mut out = Vec::new();
    encode_varint(&mut out, -1);
    assert_eq!(out, vec![0x01]);
    let mut out = Vec::new();
    encode_varint(&mut out, 1);
    assert_eq!(out, vec![0x02]);
    let mut out = Vec::new();
    encode_varint(&mut out, -2);
    assert_eq!(out, vec![0x03]);
    let mut out = Vec::new();
    encode_varint(&mut out, i64::MIN);
    let (v, _) = decode_varuint(&out, 0).expect("decodes");
    assert_eq!(v, u64::MAX);
}
