use mcio::io::{ByteBuffer, ByteReader, MinecraftRead, MinecraftWrite};
use mcio::McError;

fn encode_varint(value: i32) -> Vec<u8> {
    let mut buffer = ByteBuffer::new();
    buffer.write_varint(value);
    buffer.into_bytes()
}

fn decode_varint(bytes: Vec<u8>) -> Result<i32, McError> {
    let mut reader = ByteReader::new(bytes);
    reader.read_varint()
}

#[test]
fn varint_boundary_zero() {
    assert_eq!(encode_varint(0), vec![0x00]);
}

#[test]
fn varint_boundary_minus_one() {
    assert_eq!(encode_varint(-1), vec![0xFF, 0xFF, 0xFF, 0xFF, 0x0F]);
}

#[test]
fn varint_known_encodings() {
    assert_eq!(encode_varint(1), vec![0x01]);
    assert_eq!(encode_varint(127), vec![0x7F]);
    assert_eq!(encode_varint(128), vec![0x80, 0x01]);
    assert_eq!(encode_varint(300), vec![0xAC, 0x02]);
    assert_eq!(encode_varint(2147483647), vec![0xFF, 0xFF, 0xFF, 0xFF, 0x07]);
    assert_eq!(encode_varint(-2147483648), vec![0x80, 0x80, 0x80, 0x80, 0x08]);
}

#[test]
fn varint_round_trip() {
    for v in [
        0,
        1,
        -1,
        127,
        128,
        300,
        335,
        25565,
        47,
        2147483647,
        -2147483648,
        -25565,
    ] {
        assert_eq!(decode_varint(encode_varint(v)), Ok(v));
    }
}

#[test]
fn varint_length_bound() {
    for v in [0, 1, -1, 127, 128, 300, 2147483647, -2147483648] {
        let len = encode_varint(v).len();
        assert!(1 <= len && len <= 5);
    }
}

#[test]
fn varint_malformed_six_continuation_bytes() {
    let r = decode_varint(vec![0x80, 0x80, 0x80, 0x80, 0x80, 0x80]);
    assert_eq!(r, Err(McError::MalformedInput));
}

#[test]
fn varint_short_read() {
    assert_eq!(decode_varint(vec![]), Err(McError::UnexpectedEof));
    assert_eq!(decode_varint(vec![0x80]), Err(McError::UnexpectedEof));
    assert_eq!(
        decode_varint(vec![0x80, 0x80, 0x80, 0x80, 0x80]),
        Err(McError::UnexpectedEof)
    );
}

#[test]
fn varint_ignores_trailing_bytes() {
    let mut reader = ByteReader::new(vec![0xAC, 0x02, 0x55, 0x66]);
    assert_eq!(reader.read_varint(), Ok(300));
    assert_eq!(reader.into_bytes(), vec![0x55, 0x66]);
}

#[test]
fn u16_big_endian() {
    let mut buffer = ByteBuffer::new();
    buffer.write_u16(25565);
    assert_eq!(buffer.data, vec![0x63, 0xDD]);
    let mut reader = ByteReader::new(buffer.into_bytes());
    assert_eq!(reader.read_u16(), Ok(25565));
}

#[test]
fn long_big_endian_sentinel() {
    let mut buffer = ByteBuffer::new();
    buffer.write_long(-1);
    assert_eq!(buffer.data, vec![0xFF; 8]);
    let mut reader = ByteReader::new(buffer.into_bytes());
    assert_eq!(reader.read_long(), Ok(-1));
}

#[test]
fn long_round_trip_values() {
    for v in [0i64, 1, -1, 1234567890123456789, -987654321098765432] {
        let mut buffer = ByteBuffer::new();
        buffer.write_long(v);
        assert_eq!(buffer.data.len(), 8);
        let mut reader = ByteReader::new(buffer.into_bytes());
        assert_eq!(reader.read_long(), Ok(v));
    }
}

#[test]
fn string_round_trip() {
    for s in ["", "localhost", "h\u{00E9}llo \u{1F389} world", "mc.example.net"] {
        let mut buffer = ByteBuffer::new();
        buffer.write_string(String::from(s));
        let mut reader = ByteReader::new(buffer.into_bytes());
        assert_eq!(reader.read_string(), Ok(String::from(s)));
    }
}

#[test]
fn string_length_prefix_counts_bytes() {
    let mut buffer = ByteBuffer::new();
    buffer.write_string(String::from("\u{00E9}"));
    assert_eq!(buffer.data, vec![0x02, 0xC3, 0xA9]);
}

#[test]
fn string_invalid_utf8() {
    let mut buffer = ByteBuffer::new();
    buffer.write_varint(2);
    buffer.data.push(0xFF);
    buffer.data.push(0xFE);
    let mut reader = ByteReader::new(buffer.into_bytes());
    assert_eq!(reader.read_string(), Err(McError::InvalidEncoding));
}

#[test]
fn string_truncated_run() {
    let mut reader = ByteReader::new(vec![0x05, 0x61, 0x62]);
    assert_eq!(reader.read_string(), Err(McError::UnexpectedEof));
}
