use tcptool::protocol::codec::{calculate_checksum, decode_message, encode_message, escape, unescape};

#[test]
fn test_escape_unescape() {
    let data = vec![0x01, 0x7E, 0x7D, 0x03];
    let escaped = escape(&data);
    assert!(escaped.contains(&0x7D));
    let unescaped = unescape(&escaped).unwrap();
    assert_eq!(data, unescaped);
}

#[test]
fn test_checksum() {
    let data = vec![0x01, 0x02, 0x03];
    let cs = calculate_checksum(&data);
    assert_eq!(cs, 0x01 ^ 0x02 ^ 0x03);
}

#[test]
fn test_encode_decode_message() {
    let body = vec![0x01, 0x02, 0x03, 0x04, 0x05];
    let frame = encode_message(&body);
    let (decoded, remaining) = decode_message(&frame).unwrap();
    assert_eq!(body, decoded);
    assert!(remaining.is_empty());
}

#[test]
fn escape_exact_bytes() {
    assert_eq!(escape(&[0x30, 0x7E, 0x08, 0x7D, 0x55]), vec![0x30, 0x7D, 0x02, 0x08, 0x7D, 0x01, 0x55]);
    assert_eq!(escape(&[]), Vec::<u8>::new());
}

#[test]
fn unescape_errors() {
    assert_eq!(unescape(&[0x01, 0x7D]).unwrap_err(), "Incomplete escape sequence at end of data");
    assert_eq!(unescape(&[0x7D, 0x03, 0x7D]).unwrap_err(), "Invalid escape sequence: 0x7D 0x03");
    assert_eq!(unescape(&[0x7D, 0x7D, 0x01]).unwrap_err(), "Invalid escape sequence: 0x7D 0x7D");
    assert_eq!(unescape(&[0x7E, 0x7D, 0x02]).unwrap(), vec![0x7E, 0x7E]);
}

#[test]
fn encode_message_exact_frame() {
    // checksum 0x7E ^ 0x01 = 0x7F
    assert_eq!(encode_message(&[0x7E, 0x01]), vec![0x7E, 0x7D, 0x02, 0x01, 0x7F, 0x7E]);
}

#[test]
fn decode_message_keeps_following_bytes() {
    let body = vec![0x10, 0x7E, 0x20];
    let mut buf = encode_message(&body);
    buf.extend_from_slice(&[0xAA, 0xBB]);
    let (decoded, rest) = decode_message(&buf).unwrap();
    assert_eq!(decoded, body);
    assert_eq!(rest, &[0xAA, 0xBB]);
}

#[test]
fn decode_message_rejections() {
    // too short
    assert!(decode_message(&[0x7E, 0x01, 0x01, 0x7E]).is_none());
    // no leading delimiter
    assert!(decode_message(&[0x00, 0x01, 0x02, 0x03, 0x03, 0x7E]).is_none());
    // no closing delimiter
    assert!(decode_message(&[0x7E, 0x01, 0x02, 0x03, 0x00, 0x00]).is_none());
    // bad checksum
    assert!(decode_message(&[0x7E, 0x01, 0x02, 0x03, 0x01, 0x7E]).is_none());
    // bad escape
    assert!(decode_message(&[0x7E, 0x7D, 0x05, 0x03, 0x01, 0x7E]).is_none());
    // empty payload
    let (m, rest) = decode_message(&[0x7E, 0x7E, 0x01, 0x02, 0x03, 0x04]).unwrap();
    assert!(m.is_empty());
    assert_eq!(rest, &[0x01, 0x02, 0x03, 0x04]);
}
