use mcproxy::wire::{varint_size, write_bytes, write_i16, write_i64, write_string, write_varint, Reader};
use mcproxy::CodecError;

fn read_varint_of(bytes: &[u8]) -> Result<(i32, u8), CodecError> {
    let mut r = Reader::new(bytes);
    r.read_varint().map(|v| (v.ans, v.size))
}

#[test]
fn varint_boundary_encodings() {
    let cases: Vec<(i32, Vec<u8>)> = vec![
        (0, vec![0x00]),
        (127, vec![0x7f]),
        (128, vec![0x80, 0x01]),
        (-1, vec![0xff, 0xff, 0xff, 0xff, 0x0f]),
        (255, vec![0xff, 0x01]),
        (2097151, vec![0xff, 0xff, 0x7f]),
        (2147483647, vec![0xff, 0xff, 0xff, 0xff, 0x07]),
        (-2147483648, vec![0x80, 0x80, 0x80, 0x80, 0x08]),
    ];
    for (value, expected) in cases {
        let mut out: Vec<u8> = Vec::new();
        write_varint(&mut out, value);
        assert_eq!(out, expected, "encoding of {}", value);
        assert_eq!(varint_size(value), expected.len());
    }
}

#[test]
fn varint_round_trip_returns_value_and_length() {
    for &v in &[0i32, 1, 2, 127, 128, 300, 25565, 2097151, i32::MAX, -1, i32::MIN] {
        let mut out: Vec<u8> = Vec::new();
        write_varint(&mut out, v);
        let (ans, size) = read_varint_of(&out).unwrap();
        assert_eq!(ans, v);
        assert_eq!(size as usize, out.len());
        assert_eq!(size as usize, varint_size(v));
    }
}

#[test]
fn varint_rejects_five_continuation_bytes() {
    // six bytes whose first five all carry the continuation bit
    let bytes = [0x80u8, 0x80, 0x80, 0x80, 0x80, 0x01];
    assert!(matches!(read_varint_of(&bytes), Err(CodecError::VarintTooLong)));
}

#[test]
fn varint_accepts_non_canonical_padding() {
    // 0 encoded wastefully in two bytes still decodes to 0
    let (ans, size) = read_varint_of(&[0x80, 0x00]).unwrap();
    assert_eq!((ans, size), (0, 2));
}

#[test]
fn varint_short_input_is_io() {
    assert!(matches!(read_varint_of(&[0x80]), Err(CodecError::Io)));
    assert!(matches!(read_varint_of(&[]), Err(CodecError::Io)));
}

#[test]
fn bytes_round_trip() {
    let payload: Vec<u8> = (0u8..=255).collect();
    let mut out: Vec<u8> = Vec::new();
    write_bytes(&mut out, &payload);
    let mut r = Reader::new(&out);
    let back = r.read_bytes(i32::MAX).unwrap();
    assert_eq!(back, payload);
    assert_eq!(r.remaining_len(), 0);
}

#[test]
fn bytes_over_limit_rejected() {
    let mut out: Vec<u8> = Vec::new();
    write_bytes(&mut out, &[1, 2, 3]);
    let mut r = Reader::new(&out);
    assert!(matches!(r.read_bytes(2), Err(CodecError::LengthExceedsLimit)));
}

#[test]
fn bytes_short_input_is_io() {
    let mut r = Reader::new(&[0x05, 1, 2]);
    assert!(matches!(r.read_bytes(i32::MAX), Err(CodecError::Io)));
}

#[test]
fn string_round_trip() {
    let text = "hello, world";
    let mut out: Vec<u8> = Vec::new();
    write_string(&mut out, text);
    let mut r = Reader::new(&out);
    let back = r.read_string(100).unwrap();
    assert_eq!(back, text);
}

#[test]
fn string_limit_is_in_characters() {
    // four characters of three UTF-8 bytes each: twelve bytes, four chars
    let text = "\u{2603}\u{2603}\u{2603}\u{2603}";
    let mut out: Vec<u8> = Vec::new();
    write_string(&mut out, text);
    let mut r = Reader::new(&out);
    assert_eq!(r.read_string(4).unwrap(), text);
    let mut r2 = Reader::new(&out);
    assert!(matches!(r2.read_string(3), Err(CodecError::LengthExceedsLimit)));
}

#[test]
fn string_invalid_utf8_decodes_to_replacement() {
    // length 2, then an invalid byte and an ascii byte
    let bytes = [0x02u8, 0xff, b'a'];
    let mut r = Reader::new(&bytes);
    let s = r.read_string(16).unwrap();
    assert_eq!(s, "\u{fffd}a");
}

#[test]
fn big_endian_integers_round_trip() {
    let mut out: Vec<u8> = Vec::new();
    write_i16(&mut out, -2);
    assert_eq!(out, vec![0xff, 0xfe]);
    let mut r = Reader::new(&out);
    assert_eq!(r.read_i16().unwrap(), -2);

    let mut out64: Vec<u8> = Vec::new();
    write_i64(&mut out64, 0x0102030405060708);
    assert_eq!(out64, vec![1, 2, 3, 4, 5, 6, 7, 8]);
    let mut r64 = Reader::new(&out64);
    assert_eq!(r64.read_i64().unwrap(), 0x0102030405060708);
}
