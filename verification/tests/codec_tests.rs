use respkv::codec::{decode_frame, encode_frame, encode_reply, Decoded, Reply};

fn frame(args: &[&[u8]]) -> Vec<u8> {
    let v: Vec<Vec<u8>> = args.iter().map(|a| a.to_vec()).collect();
    encode_frame(&v)
}

#[test]
fn encode_simple_command() {
    let out = frame(&[b"SET", b"key", b"value"]);
    assert_eq!(out, b"*3\r\n$3\r\nSET\r\n$3\r\nkey\r\n$5\r\nvalue\r\n".to_vec());
}

#[test]
fn encode_empty_argument() {
    let out = frame(&[b"ECHO", b""]);
    assert_eq!(out, b"*2\r\n$4\r\nECHO\r\n$0\r\n\r\n".to_vec());
}

#[test]
fn decode_whole_frame() {
    let buf = b"*2\r\n$4\r\nECHO\r\n$5\r\nhello\r\n".to_vec();
    match decode_frame(&buf) {
        Decoded::Complete { args, consumed } => {
            assert_eq!(consumed, buf.len());
            assert_eq!(args.len(), 2);
            assert_eq!(args[0], b"ECHO".to_vec());
            assert_eq!(args[1], b"hello".to_vec());
        }
        _ => panic!("expected a complete frame"),
    }
}

#[test]
fn round_trip_with_embedded_crlf() {
    // A bulk string's declared length rules; embedded terminators are data.
    let payload: &[u8] = b"a\r\nb\r\n*1\r\n$4\r\n";
    let wire = frame(&[b"ECHO", payload]);
    match decode_frame(&wire) {
        Decoded::Complete { args, consumed } => {
            assert_eq!(consumed, wire.len());
            assert_eq!(args[1], payload.to_vec());
        }
        _ => panic!("expected a complete frame"),
    }
}

#[test]
fn round_trip_all_byte_values() {
    let payload: Vec<u8> = (0u8..=255).collect();
    let wire = frame(&[b"SET", b"k", &payload]);
    match decode_frame(&wire) {
        Decoded::Complete { args, consumed } => {
            assert_eq!(consumed, wire.len());
            assert_eq!(args[2], payload);
        }
        _ => panic!("expected a complete frame"),
    }
}

#[test]
fn round_trip_leaves_trailing_bytes() {
    let mut wire = frame(&[b"PING"]);
    let own_len = wire.len();
    wire.extend_from_slice(b"*1\r\n$4");
    match decode_frame(&wire) {
        Decoded::Complete { args, consumed } => {
            assert_eq!(consumed, own_len);
            assert_eq!(args[0], b"PING".to_vec());
        }
        _ => panic!("expected a complete frame"),
    }
}

#[test]
fn truncated_frame_is_incomplete() {
    let wire = frame(&[b"SET", b"key", b"value"]);
    for cut in 0..wire.len() {
        match decode_frame(&wire[..cut].to_vec()) {
            Decoded::Incomplete => {}
            _ => panic!("a strict prefix must read as incomplete (cut {})", cut),
        }
    }
}

#[test]
fn malformed_count_is_rejected() {
    assert!(matches!(decode_frame(b"*x\r\n"), Decoded::Malformed));
    assert!(matches!(decode_frame(b"*-1\r\n"), Decoded::Malformed));
    assert!(matches!(decode_frame(b"ping\r\n"), Decoded::Malformed));
}

#[test]
fn malformed_bulk_length_is_rejected() {
    assert!(matches!(decode_frame(b"*1\r\n$x\r\n"), Decoded::Malformed));
    assert!(matches!(decode_frame(b"*1\r\n#4\r\nping\r\n"), Decoded::Malformed));
    // declared length consumed, but the terminator is missing
    assert!(matches!(decode_frame(b"*1\r\n$4\r\npingXY"), Decoded::Malformed));
}

#[test]
fn leading_zeros_in_lengths_are_tolerated() {
    match decode_frame(b"*01\r\n$04\r\nping\r\n") {
        Decoded::Complete { args, consumed } => {
            assert_eq!(consumed, 16);
            assert_eq!(args[0], b"ping".to_vec());
        }
        _ => panic!("expected a complete frame"),
    }
}

#[test]
fn reply_encodings() {
    assert_eq!(encode_reply(&Reply::Simple(b"PONG".to_vec())), b"+PONG\r\n".to_vec());
    assert_eq!(encode_reply(&Reply::Error(b"ERR oops".to_vec())), b"-ERR oops\r\n".to_vec());
    assert_eq!(encode_reply(&Reply::Bulk(b"hey".to_vec())), b"$3\r\nhey\r\n".to_vec());
    assert_eq!(encode_reply(&Reply::NullBulk), b"$-1\r\n".to_vec());
    assert_eq!(encode_reply(&Reply::Raw(b"RDB".to_vec())), b"$3\r\nRDB".to_vec());
}
