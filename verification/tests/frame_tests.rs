use mcproxy::frame::{read_packet, write_packet, MaybeCompressed};
use mcproxy::packets::{ChatRequest, PacketData, Ping, VarInt};
use mcproxy::wire::Reader;
use mcproxy::CodecError;

fn read_one(bytes: &[u8], compression: Option<i32>) -> Result<MaybeCompressed, CodecError> {
    let mut r = Reader::new(bytes);
    read_packet(&mut r, compression)
}

fn long_message() -> String {
    // 256 characters: the longest chat the catalog admits, and enough body
    // to reach the proxy's threshold
    let mut m = String::new();
    while m.len() < 256 {
        m.push_str("abcdefgh");
    }
    m
}

#[test]
fn plain_frame_round_trip_no_compression() {
    let chat = ChatRequest { message: "hi there".to_string() };
    let mut wire: Vec<u8> = Vec::new();
    write_packet(&mut wire, None, &chat).unwrap();
    let frame = read_one(&wire, None).unwrap();
    assert_eq!(frame.cheap_id(), Some(0x0f));
    let back: ChatRequest = frame.decode().unwrap();
    assert_eq!(back.message, "hi there");
}

#[test]
fn frame_round_trip_under_each_threshold() {
    for threshold in [1i32, 256, 65536] {
        for message in ["short".to_string(), long_message()] {
            let chat = ChatRequest { message: message.clone() };
            let mut wire: Vec<u8> = Vec::new();
            write_packet(&mut wire, Some(threshold), &chat).unwrap();
            let frame = read_one(&wire, Some(threshold)).unwrap();
            let back: ChatRequest = frame.decode().unwrap();
            assert_eq!(back.message, message, "threshold {}", threshold);
        }
    }
}

#[test]
fn compressed_frame_write_is_byte_identical() {
    // a frame that travels compressed, re-emitted on the fast path
    let chat = ChatRequest { message: long_message() };
    let mut wire: Vec<u8> = Vec::new();
    write_packet(&mut wire, Some(256), &chat).unwrap();
    let frame = read_one(&wire, Some(256)).unwrap();
    assert_eq!(frame.cheap_id(), None);
    let mut rewritten: Vec<u8> = Vec::new();
    frame.write(Some(256), &mut rewritten).unwrap();
    assert_eq!(rewritten, wire);
}

#[test]
fn compressed_frame_decompresses_for_plain_output() {
    // the one slow path: compressed input, no-compression output
    let chat = ChatRequest { message: long_message() };
    let mut wire: Vec<u8> = Vec::new();
    write_packet(&mut wire, Some(256), &chat).unwrap();
    let frame = read_one(&wire, Some(256)).unwrap();
    let mut plain: Vec<u8> = Vec::new();
    frame.write(None, &mut plain).unwrap();
    let reread = read_one(&plain, None).unwrap();
    let back: ChatRequest = reread.decode().unwrap();
    assert_eq!(back.message, long_message());
}

#[test]
fn id_decompresses_on_demand_and_caches() {
    let chat = ChatRequest { message: long_message() };
    let mut wire: Vec<u8> = Vec::new();
    write_packet(&mut wire, Some(256), &chat).unwrap();
    let mut frame = read_one(&wire, Some(256)).unwrap();
    assert_eq!(frame.cheap_id(), None);
    assert_eq!(frame.id().unwrap(), 0x0f);
    assert_eq!(frame.cheap_id(), Some(0x0f));
    // the cached form still re-emits the original compressed bytes
    let mut rewritten: Vec<u8> = Vec::new();
    frame.write(Some(256), &mut rewritten).unwrap();
    assert_eq!(rewritten, wire);
}

#[test]
fn zero_length_frame_rejected() {
    assert!(matches!(read_one(&[0x00, 0x01], None), Err(CodecError::LengthExceedsLimit)));
    assert!(matches!(read_one(&[0x00, 0x01], Some(256)), Err(CodecError::LengthExceedsLimit)));
}

#[test]
fn below_threshold_marker_framing() {
    // a small packet on a compressed link: length, zero marker, body
    let ping = Ping { payload: 2 };
    let mut wire: Vec<u8> = Vec::new();
    write_packet(&mut wire, Some(256), &ping).unwrap();
    assert_eq!(wire, vec![10, 0, 0x01, 0, 0, 0, 0, 0, 0, 0, 2]);
    let frame = read_one(&wire, Some(256)).unwrap();
    assert_eq!(frame.cheap_id(), Some(0x01));
}

#[test]
fn wrong_packet_id_rejected() {
    let frame = MaybeCompressed::Plain { packet_id: 0x05, data: vec![0; 8] };
    let r: Result<Ping, CodecError> = frame.decode();
    assert!(matches!(r, Err(CodecError::WrongPacketId)));
}

#[test]
fn trailing_bytes_rejected() {
    let frame = MaybeCompressed::Plain { packet_id: 0x01, data: vec![0; 9] };
    let r: Result<Ping, CodecError> = frame.decode();
    assert!(matches!(r, Err(CodecError::TrailingBytes)));
}

#[test]
fn garbage_compressed_payload_rejected() {
    // total 4: a data-length varint of 5, then three bytes of non-zlib noise
    let bytes = [0x04u8, 0x05, 0x01, 0x02, 0x03];
    let mut frame = read_one(&bytes, Some(1)).unwrap();
    assert!(matches!(frame.id(), Err(CodecError::BadCompressedData)));
}

#[test]
fn negative_packet_id_rejected() {
    // a five-byte varint for -1 as the packet id
    let bytes = [0x06u8, 0xff, 0xff, 0xff, 0xff, 0x0f, 0x00];
    assert!(matches!(read_one(&bytes, None), Err(CodecError::InvalidFieldValue)));
}

#[test]
fn truncated_frame_is_io() {
    let ping = Ping { payload: 7 };
    let mut wire: Vec<u8> = Vec::new();
    write_packet(&mut wire, None, &ping).unwrap();
    wire.pop();
    assert!(matches!(read_one(&wire, None), Err(CodecError::Io)));
}

#[test]
fn varint_packet_reads_value() {
    let v = VarInt(300);
    let mut wire: Vec<u8> = Vec::new();
    v.write(&mut wire);
    assert_eq!(wire, vec![0xac, 0x02]);
    let mut r = Reader::new(&wire);
    let back = VarInt::read(&mut r).unwrap();
    assert_eq!(back.0, 300);
}
