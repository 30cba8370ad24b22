use protowire::batch::{decode_varint_batch_scalar, encode_varint_batch_scalar};
use protowire::error::WireError;
use protowire::tag::{decode_field_tag, encode_field_tag};
use protowire::varint::{decode_varint, decode_varint_u32, encode_varint, encode_varint_u32};
use protowire::zigzag::{decode_zigzag, decode_zigzag32, encode_zigzag, encode_zigzag32};

#[test]
fn test_encode_varint_u32() {
    let mut output = Vec::new();
    encode_varint_u32(0, &mut output);
    assert_eq!(output, vec![0]);

    output.clear();
    encode_varint_u32(300, &mut output);
    assert_eq!(output, vec![0xAC, 0x02]);

    output.clear();
    encode_varint_u32(u32::MAX, &mut output);
    assert_eq!(output.len(), 5);
}

#[test]
fn test_decode_varint_u32() {
    assert_eq!(decode_varint_u32(&[0]), Ok((0, 1)));
    assert_eq!(decode_varint_u32(&[0xAC, 0x02]), Ok((300, 2)));
    assert!(decode_varint_u32(&[0xFF, 0xFF, 0xFF, 0xFF, 0xFF]).is_err()); // overflow
    assert!(decode_varint_u32(&[0x80]).is_err()); // incomplete
}

#[test]
fn test_batch_encoding() {
    let values = vec![0, 1, 127, 128, 300, 16384];
    let encoded = encode_varint_batch_scalar(&values);
    let decoded = decode_varint_batch_scalar(&encoded).unwrap();
    assert_eq!(values, decoded);
}

#[test]
fn test_empty_batch() {
    let values: Vec<u32> = vec![];
    let encoded = encode_varint_batch_scalar(&values);
    assert_eq!(encoded.len(), 0);

    let decoded = decode_varint_batch_scalar(&[]).unwrap();
    assert_eq!(decoded.len(), 0);
}

#[test]
fn test_large_batch() {
    let values: Vec<u32> = (0..1000).collect();
    let encoded = encode_varint_batch_scalar(&values);
    let decoded = decode_varint_batch_scalar(&encoded).unwrap();
    assert_eq!(values, decoded);
}

#[test]
fn varint_u32_canonical_sizes() {
    let mut out = Vec::new();
    encode_varint_u32(0, &mut out);
    assert_eq!(out, vec![0x00]);

    out.clear();
    encode_varint_u32(127, &mut out);
    assert_eq!(out, vec![0x7F]);

    out.clear();
    encode_varint_u32(128, &mut out);
    assert_eq!(out, vec![0x80, 0x01]);

    out.clear();
    encode_varint_u32(300, &mut out);
    assert_eq!(out, vec![0xAC, 0x02]);
}

#[test]
fn varint_u32_round_trip_values() {
    for v in [0u32, 1, 127, 128, 300, 16384, 2_097_151, 268_435_455, u32::MAX] {
        let mut out = Vec::new();
        encode_varint_u32(v, &mut out);
        assert_eq!(decode_varint_u32(&out), Ok((v, out.len())));
    }
}

#[test]
fn varint_u32_overflow_error_kind() {
    assert_eq!(
        decode_varint_u32(&[0xFF, 0xFF, 0xFF, 0xFF, 0xFF]),
        Err(WireError::VarintOverflow)
    );
}

#[test]
fn varint_u32_incomplete_error_kind() {
    assert_eq!(decode_varint_u32(&[0x80]), Err(WireError::IncompleteVarint));
}

#[test]
fn error_messages_name_the_failure() {
    assert_eq!(WireError::VarintOverflow.message(), "varint overflow");
    assert_eq!(WireError::IncompleteVarint.message(), "incomplete varint");
    assert_eq!(WireError::NoOpenFork.message(), "no open fork to commit");
}

#[test]
fn varint_u64_round_trip_values() {
    for v in [0u64, 1, 127, 128, 1 << 35, u32::MAX as u64, (1 << 63) + 5, u64::MAX] {
        let encoded = encode_varint(v);
        assert_eq!(decode_varint(&encoded), Ok(v));
    }
}

#[test]
fn varint_u64_error_kinds() {
    // Ten continuation bytes: the varint runs past its maximum length.
    assert_eq!(decode_varint(&[0x80; 10]), Err(WireError::VarintTooLong));
    // A tenth byte carrying more than bit 0 overflows 64 bits.
    let mut overflowing = vec![0x80u8; 9];
    overflowing.push(0x02);
    assert_eq!(decode_varint(&overflowing), Err(WireError::VarintOverflow));
    // A buffer ending mid-varint is incomplete.
    assert_eq!(decode_varint(&[0xFF, 0xFF]), Err(WireError::IncompleteVarint));
    assert_eq!(decode_varint(&[]), Err(WireError::IncompleteVarint));
}

#[test]
fn zigzag_small_magnitudes() {
    // -1, 0, 1, -2, 2 map to 1, 0, 2, 3, 4.
    assert_eq!(encode_zigzag(0), 0);
    assert_eq!(encode_zigzag(-1), 1);
    assert_eq!(encode_zigzag(1), 2);
    assert_eq!(encode_zigzag(-2), 3);
    assert_eq!(encode_zigzag(2), 4);
    assert_eq!(encode_zigzag32(-1), 1);
    assert_eq!(encode_zigzag32(1), 2);
}

#[test]
fn zigzag_round_trip_values() {
    for v in [0i64, 1, -1, 2, -2, i64::MAX, i64::MIN, 123_456_789, -987_654_321] {
        assert_eq!(decode_zigzag(encode_zigzag(v)), v);
    }
    for v in [0i32, 1, -1, i32::MAX, i32::MIN] {
        assert_eq!(decode_zigzag32(encode_zigzag32(v)), v);
    }
}

#[test]
fn tag_round_trip() {
    let encoded = encode_field_tag(1, 2).unwrap();
    assert_eq!(decode_field_tag(&encoded), Ok((1, 2)));

    let encoded = encode_field_tag(536_870_911, 5).unwrap();
    assert_eq!(decode_field_tag(&encoded), Ok((536_870_911, 5)));
}

#[test]
fn tag_reserved_range_rejected() {
    assert_eq!(encode_field_tag(19500, 0), Err(WireError::InvalidTag));
    assert_eq!(encode_field_tag(19000, 0), Err(WireError::InvalidTag));
    assert_eq!(encode_field_tag(19999, 0), Err(WireError::InvalidTag));
    // Neighbours of the reserved range are accepted.
    assert!(encode_field_tag(18999, 0).is_ok());
    assert!(encode_field_tag(20000, 0).is_ok());
}

#[test]
fn tag_range_validation() {
    assert_eq!(encode_field_tag(0, 0), Err(WireError::InvalidTag));
    assert_eq!(encode_field_tag(536_870_912, 0), Err(WireError::InvalidTag));
    assert_eq!(encode_field_tag(1, 6), Err(WireError::InvalidTag));
    assert!(encode_field_tag(1, 0).is_ok());
    assert!(encode_field_tag(1, 5).is_ok());
}
