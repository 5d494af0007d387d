use ionic_wire::codec::{
    decode_bool, decode_lp_bytes, decode_position, decode_varint, encode_varint, write_bool,
    write_lp_bytes, write_position, write_varint, NetworkPosition,
};
use ionic_wire::WireError;

#[test]
fn varint_round_trip_boundaries() {
    for n in [0u32, 1, 127, 128, 255, 300, 16383, 16384, 2097151, 2147483647, u32::MAX] {
        let bytes = encode_varint(n);
        let (v, used) = decode_varint(&bytes, 0).unwrap();
        assert_eq!(v, n);
        assert_eq!(used, bytes.len());
    }
}

#[test]
fn varint_known_encodings() {
    assert_eq!(encode_varint(0), vec![0x00]);
    assert_eq!(encode_varint(127), vec![0x7F]);
    assert_eq!(encode_varint(128), vec![0x80, 0x01]);
    assert_eq!(encode_varint(300), vec![0xAC, 0x02]);
    assert_eq!(encode_varint(2147483647), vec![0xFF, 0xFF, 0xFF, 0xFF, 0x07]);
}

#[test]
fn varint_unterminated_run_fails() {
    let bytes = vec![0x80u8, 0x80, 0x80, 0x80, 0x80];
    assert_eq!(decode_varint(&bytes, 0), Err(WireError::MalformedVarInt));
}

#[test]
fn varint_empty_buffer_fails() {
    let bytes: Vec<u8> = vec![];
    assert_eq!(decode_varint(&bytes, 0), Err(WireError::MalformedVarInt));
}

#[test]
fn varint_non_minimal_encoding_fails() {
    // 0 written in two bytes: a continuation byte with an empty final group.
    let bytes = vec![0x80u8, 0x00];
    assert_eq!(decode_varint(&bytes, 0), Err(WireError::MalformedVarInt));
}

#[test]
fn length_prefix_round_trip_keeps_order() {
    let data = vec![9u8, 8, 7, 6, 5];
    let mut buf: Vec<u8> = Vec::new();
    write_lp_bytes(&mut buf, &data);
    let (out, used) = decode_lp_bytes(&buf, 0, u32::MAX).unwrap();
    assert_eq!(out, data);
    assert_eq!(used, buf.len());
}

#[test]
fn length_prefix_count_over_buffer_fails() {
    // Declared count of 5 with only two bytes remaining.
    let buf = vec![5u8, 1, 2];
    assert_eq!(decode_lp_bytes(&buf, 0, u32::MAX), Err(WireError::MalformedFrame));
}

#[test]
fn length_prefix_count_over_maximum_fails() {
    let buf = vec![4u8, 1, 2, 3, 4];
    assert_eq!(decode_lp_bytes(&buf, 0, 3), Err(WireError::MalformedFrame));
}

#[test]
fn bool_round_trip_and_rejection() {
    let mut buf: Vec<u8> = Vec::new();
    write_bool(&mut buf, true);
    write_bool(&mut buf, false);
    assert_eq!(decode_bool(&buf, 0).unwrap(), (true, 1));
    assert_eq!(decode_bool(&buf, 1).unwrap(), (false, 1));
    let bad = vec![2u8];
    assert_eq!(decode_bool(&bad, 0), Err(WireError::DecodeFieldError));
}

#[test]
fn position_round_trip_signed() {
    for (x, y, z) in [
        (0i32, 0i32, 0i32),
        (1, 2, 3),
        (-1, -1, -1),
        (33554431, 2047, 33554431),
        (-33554432, -2048, -33554432),
        (12345, -64, -54321),
    ] {
        let p = NetworkPosition { x, y, z };
        let mut buf: Vec<u8> = Vec::new();
        write_position(&mut buf, p);
        assert_eq!(buf.len(), 8);
        let (q, used) = decode_position(&buf, 0).unwrap();
        assert_eq!(used, 8);
        assert_eq!(q, p);
    }
}

#[test]
fn position_short_buffer_fails() {
    let buf = vec![0u8; 7];
    assert_eq!(decode_position(&buf, 0), Err(WireError::DecodeFieldError));
}

#[test]
fn varint_decode_mid_buffer() {
    let mut buf: Vec<u8> = vec![0xFF];
    write_varint(&mut buf, 300);
    let (v, used) = decode_varint(&buf, 1).unwrap();
    assert_eq!(v, 300);
    assert_eq!(used, 2);
}
