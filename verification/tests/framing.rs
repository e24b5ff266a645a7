use rust_feeds::frame::{decode_frame, encode_frame, FrameError};
use rust_feeds::opcode::OpCodes;
use rust_feeds::message_string::{read_str_no_len, read_str_with_len};
use rust_feeds::errors::DataError;

#[test]
fn frame_round_trip_publish() {
    let payload = b"\x03bob:\x07weather:sunny".to_vec();
    let enc = encode_frame(3, &payload);
    assert_eq!(enc.len(), payload.len() + 5);
    let frame = decode_frame(enc.as_slice()).unwrap();
    assert_eq!(frame.opcode, 3);
    assert_eq!(frame.payload, payload);
}

#[test]
fn frame_round_trip_empty_payload() {
    let payload: Vec<u8> = Vec::new();
    let enc = encode_frame(0, &payload);
    assert_eq!(enc, vec![0, 0, 0, 5, 0]);
    let frame = decode_frame(enc.as_slice()).unwrap();
    assert_eq!(frame.opcode, 0);
    assert!(frame.payload.is_empty());
}

#[test]
fn frame_round_trip_every_opcode() {
    for op in 0u8..=255 {
        let payload = vec![1, 2, 3, op];
        let enc = encode_frame(op, &payload);
        let frame = decode_frame(enc.as_slice()).unwrap();
        assert_eq!(frame.opcode, op);
        assert_eq!(frame.payload, payload);
    }
}

#[test]
fn frame_truncation_every_prefix() {
    let payload = b"hello world".to_vec();
    let enc = encode_frame(3, &payload);
    for k in 0..enc.len() {
        let cut = enc[..k].to_vec();
        match decode_frame(cut.as_slice()) {
            Err(FrameError::Truncated) => {},
            other => panic!("prefix of {} bytes gave {:?}", k, other.map(|f| f.opcode)),
        }
    }
}

#[test]
fn frame_declared_length_too_small() {
    // a declared total of 4 leaves no room for the opcode byte
    let bytes = vec![0, 0, 0, 4, 9];
    assert!(matches!(decode_frame(bytes.as_slice()), Err(FrameError::BadLength)));
}

#[test]
fn frame_trailing_bytes_refused() {
    let payload = b"x".to_vec();
    let mut enc = encode_frame(3, &payload);
    enc.push(0);
    assert!(matches!(decode_frame(enc.as_slice()), Err(FrameError::TrailingData)));
}

#[test]
fn opcode_bytes_round_trip() {
    let all = [
        OpCodes::ErrorCode,
        OpCodes::Info,
        OpCodes::Auth,
        OpCodes::Publish,
        OpCodes::Subscribe,
        OpCodes::Unsubscribe,
    ];
    for (i, op) in all.iter().enumerate() {
        assert_eq!(op.as_byte() as usize, i);
        assert_eq!(OpCodes::from_byte(i as u8), Some(*op));
    }
    for b in 6u8..=255 {
        assert_eq!(OpCodes::from_byte(b), None);
    }
}

#[test]
fn length_prefixed_string_ok() {
    let buf = b"\x05alicerest".to_vec();
    let (n, text) = read_str_with_len(buf.as_slice()).unwrap();
    assert_eq!(n, 5);
    assert_eq!(text, b"alice".to_vec());
}

#[test]
fn length_prefixed_string_too_short() {
    let buf = b"\x09abc".to_vec();
    assert!(matches!(read_str_with_len(buf.as_slice()), Err(DataError::TooShort)));
    let empty: Vec<u8> = Vec::new();
    assert!(matches!(read_str_with_len(empty.as_slice()), Err(DataError::TooShort)));
}

#[test]
fn length_prefixed_string_bad_utf8() {
    let buf = vec![2, 0xff, 0xfe];
    assert!(matches!(read_str_with_len(buf.as_slice()), Err(DataError::NotUtf8)));
}

#[test]
fn remainder_string_ok() {
    let buf = b"weather".to_vec();
    assert_eq!(read_str_no_len(buf.as_slice()).unwrap(), b"weather".to_vec());
}

#[test]
fn remainder_string_empty_refused() {
    let empty: Vec<u8> = Vec::new();
    assert!(matches!(read_str_no_len(empty.as_slice()), Err(DataError::TooShort)));
}

#[test]
fn remainder_string_bad_utf8() {
    let buf = vec![0xc0, 0x20];
    assert!(matches!(read_str_no_len(buf.as_slice()), Err(DataError::NotUtf8)));
}
