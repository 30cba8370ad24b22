use protowire::error::WireError;
use protowire::reader::ReaderImpl;
use protowire::varint::decode_varint;
use protowire::writer::{WriteOp, WriterImpl};

#[test]
fn test_reader_uint32() {
    let buffer = vec![0xAC, 0x02]; // 300 in varint
    let mut reader = ReaderImpl::new(buffer);

    assert_eq!(reader.read_varint32().unwrap(), 300);
    assert!(reader.is_empty());
}

#[test]
fn test_reader_skip() {
    let buffer = vec![1, 2, 3, 4, 5];
    let mut reader = ReaderImpl::new(buffer);

    reader.skip(2).unwrap();
    assert_eq!(reader.pos(), 2);
    assert_eq!(reader.len(), 5);
}

#[test]
fn test_reader_reset() {
    let buffer = vec![1, 2, 3];
    let mut reader = ReaderImpl::new(buffer);
    reader.skip(2).unwrap();
    assert_eq!(reader.pos(), 2);

    reader.reset();
    assert_eq!(reader.pos(), 0);
}

#[test]
fn test_reader_string() {
    let mut buffer = vec![5]; // length
    buffer.extend_from_slice(b"hello");
    let mut reader = ReaderImpl::new(buffer);
    let value = reader.read_string().unwrap();
    assert_eq!(value, "hello");
}

#[test]
fn test_reader_bool() {
    let buffer = vec![1];
    let mut reader = ReaderImpl::new(buffer);
    let value = reader.read_bool().unwrap();
    assert_eq!(value, true);
}

#[test]
fn test_decoder_varint() {
    let buffer = vec![0xAC, 0x02];
    let value = decode_varint(&buffer).unwrap();
    assert_eq!(value, 300);
}

#[test]
fn test_decoder_string() {
    let mut buffer = vec![5]; // length
    buffer.extend_from_slice(b"hello");
    let mut reader = ReaderImpl::new(buffer);
    let value = reader.read_string().unwrap();
    assert_eq!(value, "hello");
}

#[test]
fn test_encoder_varint() {
    let result = protowire::varint::encode_varint(300);
    assert_eq!(result, vec![0xAC, 0x02]);
}

#[test]
fn test_encoder_string() {
    let mut writer = WriterImpl::new();
    writer.write_string("hello");
    let result = writer.finish();
    // Length (5) followed by "hello"
    assert_eq!(result[0], 5);
    assert_eq!(&result[1..], b"hello");
}

#[test]
fn test_writer_uint32() {
    let mut writer = WriterImpl::new();
    writer.write_varint32(300);
    let result = writer.finish();
    assert_eq!(result, vec![0xAC, 0x02]);
}

#[test]
fn test_writer_string() {
    let mut writer = WriterImpl::new();
    writer.write_string("hello");
    let result = writer.finish();
    assert_eq!(result, vec![5, b'h', b'e', b'l', b'l', b'o']);
}

#[test]
fn test_writer_bool() {
    let mut writer = WriterImpl::new();
    writer.write_bool(true);
    let result = writer.finish();
    assert_eq!(result, vec![1]);
}

#[test]
fn test_writer_reset() {
    let mut writer = WriterImpl::new();
    writer.write_varint32(123);
    assert!(!writer.is_empty());

    writer.reset();
    assert!(writer.is_empty());
    assert_eq!(writer.len(), 0);
}

#[test]
fn test_writer_with_capacity() {
    let writer = WriterImpl::with_capacity(100);
    assert_eq!(writer.len(), 0);
}

#[test]
fn test_writer_chaining() {
    let mut writer = WriterImpl::new();
    writer.write_varint32(100);
    writer.write_varint32(200);
    writer.write_varint32(300);
    assert!(writer.len() > 0);
}

#[test]
fn string_round_trip_advances_position() {
    let mut writer = WriterImpl::new();
    writer.write_string("hello");
    let bytes = writer.finish();
    assert_eq!(bytes, vec![0x05, b'h', b'e', b'l', b'l', b'o']);

    let mut reader = ReaderImpl::new(bytes);
    assert_eq!(reader.read_string().unwrap(), "hello");
    assert_eq!(reader.pos(), 6);
}

#[test]
fn string_multibyte_round_trip() {
    let text = "héllo wörld — ₹";
    let mut writer = WriterImpl::new();
    writer.write_string(text);
    let bytes = writer.finish();

    let mut reader = ReaderImpl::new(bytes);
    assert_eq!(reader.read_string().unwrap(), text);
}

#[test]
fn string_invalid_utf8_rejected() {
    // A length prefix of 2 followed by an invalid UTF-8 sequence.
    let buffer = vec![0x02, 0xFF, 0xFF];
    let mut reader = ReaderImpl::new(buffer);
    assert_eq!(reader.read_string(), Err(WireError::InvalidUtf8));
    // The whole read failed atomically: the cursor did not move.
    assert_eq!(reader.pos(), 0);
}

#[test]
fn sint64_round_trip() {
    for v in [0i64, 1, -1, 2, -2, 63, -64, i64::MAX, i64::MIN] {
        let mut writer = WriterImpl::new();
        writer.write_sint64(v);
        let mut reader = ReaderImpl::new(writer.finish());
        assert_eq!(reader.read_sint64().unwrap(), v);
        assert!(reader.is_empty());
    }
}

#[test]
fn sint32_round_trip() {
    for v in [0i32, 1, -1, i32::MAX, i32::MIN] {
        let mut writer = WriterImpl::new();
        writer.write_sint32(v);
        let mut reader = ReaderImpl::new(writer.finish());
        assert_eq!(reader.read_sint32().unwrap(), v);
    }
}

#[test]
fn int32_negative_takes_ten_bytes() {
    let mut writer = WriterImpl::new();
    writer.write_int32(-1);
    let bytes = writer.finish();
    assert_eq!(bytes.len(), 10);

    let mut reader = ReaderImpl::new(bytes);
    assert_eq!(reader.read_int32().unwrap(), -1);
}

#[test]
fn int64_round_trip() {
    for v in [0i64, -1, 42, i64::MIN, i64::MAX] {
        let mut writer = WriterImpl::new();
        writer.write_int64(v);
        let mut reader = ReaderImpl::new(writer.finish());
        assert_eq!(reader.read_int64().unwrap(), v);
    }
}

#[test]
fn fixed_width_round_trips() {
    let mut writer = WriterImpl::new();
    writer.write_fixed32(0xDEAD_BEEF);
    writer.write_sfixed32(-2);
    writer.write_fixed64(0x0123_4567_89AB_CDEF);
    writer.write_sfixed64(-3);
    let bytes = writer.finish();
    assert_eq!(&bytes[0..4], &[0xEF, 0xBE, 0xAD, 0xDE]);

    let mut reader = ReaderImpl::new(bytes);
    assert_eq!(reader.read_fixed32().unwrap(), 0xDEAD_BEEF);
    assert_eq!(reader.read_sfixed32().unwrap(), -2);
    assert_eq!(reader.read_fixed64().unwrap(), 0x0123_4567_89AB_CDEF);
    assert_eq!(reader.read_sfixed64().unwrap(), -3);
    assert!(reader.is_empty());
}

#[test]
fn fixed_width_underflow() {
    let mut reader = ReaderImpl::new(vec![1, 2, 3]);
    assert_eq!(reader.read_fixed32(), Err(WireError::BufferUnderflow));
    assert_eq!(reader.read_fixed64(), Err(WireError::BufferUnderflow));
    assert_eq!(reader.pos(), 0);
}

#[test]
fn read_bytes_underflow() {
    let mut reader = ReaderImpl::new(vec![1, 2]);
    assert_eq!(reader.read_bytes(3), Err(WireError::BufferUnderflow));
    assert_eq!(reader.read_bytes(2).unwrap(), vec![1, 2]);
}

#[test]
fn length_delimited_round_trip() {
    let mut writer = WriterImpl::new();
    writer.write_len_delimited(&[9, 8, 7]);
    let bytes = writer.finish();
    assert_eq!(bytes, vec![3, 9, 8, 7]);

    let mut reader = ReaderImpl::new(bytes);
    assert_eq!(reader.read_length_delimited().unwrap(), vec![9, 8, 7]);
    assert!(reader.is_empty());
}

#[test]
fn fork_commit_prefixes_length() {
    let mut writer = WriterImpl::new();
    writer.fork();
    writer.write_bytes(&[10, 20, 30]);
    writer.ldelim().unwrap();
    let bytes = writer.finish();
    assert_eq!(bytes, vec![0x03, 10, 20, 30]);
}

#[test]
fn nested_fork_commit() {
    // outer section: one byte, then an inner length-delimited section of two
    // bytes; each length prefix covers exactly its own section.
    let mut writer = WriterImpl::new();
    writer.fork();
    writer.write_bytes(&[1]);
    writer.fork();
    writer.write_bytes(&[2, 3]);
    writer.ldelim().unwrap();
    writer.ldelim().unwrap();
    let bytes = writer.finish();
    // inner: [2, 2, 3]; outer: 1 + inner = 4 bytes
    assert_eq!(bytes, vec![4, 1, 2, 2, 3]);
}

#[test]
fn ldelim_without_fork_fails() {
    let mut writer = WriterImpl::new();
    writer.write_varint32(7);
    assert_eq!(writer.ldelim(), Err(WireError::NoOpenFork));
    // the writer is untouched and still usable
    assert_eq!(writer.finish(), vec![7]);
}

#[test]
fn skip_field_length_delimited_exact() {
    // A 300-byte length-delimited field: 2 length bytes + 300 payload bytes.
    let mut writer = WriterImpl::new();
    let payload = vec![0xAB; 300];
    writer.write_len_delimited(&payload);
    writer.write_varint32(77);
    let bytes = writer.finish();

    let mut reader = ReaderImpl::new(bytes);
    reader.skip_type(2).unwrap();
    assert_eq!(reader.pos(), 2 + 300);
    assert_eq!(reader.read_varint32().unwrap(), 77);
}

#[test]
fn skip_field_each_wire_type() {
    let mut writer = WriterImpl::new();
    writer.write_varint64(u64::MAX); // wire type 0: ten bytes
    writer.write_fixed64(5); // wire type 1: eight bytes
    writer.write_fixed32(5); // wire type 5: four bytes
    let bytes = writer.finish();

    let mut reader = ReaderImpl::new(bytes);
    reader.skip_type(0).unwrap();
    assert_eq!(reader.pos(), 10);
    reader.skip_type(1).unwrap();
    assert_eq!(reader.pos(), 18);
    reader.skip_type(5).unwrap();
    assert_eq!(reader.pos(), 22);
    assert!(reader.is_empty());
}

#[test]
fn skip_field_group() {
    // A group body: tag(field 1, varint) value 5, tag(field 2, end group).
    let mut writer = WriterImpl::new();
    writer.write_tag(1, 0).unwrap();
    writer.write_varint32(5);
    writer.write_tag(2, 4).unwrap();
    writer.write_varint32(99);
    let bytes = writer.finish();
    let total = bytes.len();

    let mut reader = ReaderImpl::new(bytes);
    reader.skip_type(3).unwrap();
    assert_eq!(reader.pos(), total - 1);
    assert_eq!(reader.read_varint32().unwrap(), 99);
}

#[test]
fn skip_field_invalid_wire_type() {
    let mut reader = ReaderImpl::new(vec![1, 2, 3]);
    assert_eq!(reader.skip_type(6), Err(WireError::InvalidWireType));
    assert_eq!(reader.skip_type(4), Err(WireError::InvalidWireType));
    assert_eq!(reader.pos(), 0);
}

#[test]
fn writer_tag_validation() {
    let mut writer = WriterImpl::new();
    assert!(writer.write_tag(1, 2).is_ok());
    assert_eq!(writer.write_tag(19500, 0), Err(WireError::InvalidTag));
    assert_eq!(writer.write_tag(0, 0), Err(WireError::InvalidTag));
    assert_eq!(writer.write_tag(1, 6), Err(WireError::InvalidTag));
    // only the valid tag reached the buffer
    let bytes = writer.finish();
    let mut reader = ReaderImpl::new(bytes);
    let tag = reader.read_varint32().unwrap();
    assert_eq!((tag >> 3, tag & 7), (1, 2));
}

#[test]
fn encode_all_batches_operations() {
    let ops = vec![
        WriteOp::Uint32(300),
        WriteOp::Bool(true),
        WriteOp::Fixed32(1),
        WriteOp::Bytes(vec![7, 8]),
        WriteOp::Str(String::from("hi")),
        WriteOp::Sint64(-1),
    ];
    let bytes = WriterImpl::encode_all(&ops);
    let mut expected = vec![0xAC, 0x02]; // 300
    expected.push(1); // true
    expected.extend_from_slice(&[1, 0, 0, 0]); // fixed32 1
    expected.extend_from_slice(&[2, 7, 8]); // length-delimited bytes
    expected.extend_from_slice(&[2, b'h', b'i']); // string
    expected.push(1); // zigzag(-1)
    assert_eq!(bytes, expected);
}

#[test]
fn varint_underflow_leaves_reader_usable() {
    let mut reader = ReaderImpl::new(vec![0x80, 0x80]);
    assert_eq!(reader.read_varint32(), Err(WireError::BufferUnderflow));
    assert_eq!(reader.pos(), 0);
    reader.reset();
    assert_eq!(reader.pos(), 0);
}
