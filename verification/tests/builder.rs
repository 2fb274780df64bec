use tcptool::protocol::builder::{timestamp_at, LOCAL_TIME_LIMIT};
use tcptool::protocol::builder::{
    build_auth, build_frame, build_heartbeat, build_location_report, build_location_report_at,
    build_register,
};
use tcptool::protocol::codec::decode_message;
use tcptool::protocol::message::{parse_message, LocationReport, Jt808Message, ParsedMessage};
use tcptool::protocol::types::{MsgHeader, ProtocolVersion};

#[test]
fn test_build_heartbeat_2013() {
    let frame = build_heartbeat(ProtocolVersion::V2013, "013900000001", 1);
    assert!(frame.len() > 6);
    assert_eq!(frame[0], 0x7E);
    assert_eq!(*frame.last().unwrap(), 0x7E);

    let (decoded, _) = decode_message(&frame).unwrap();
    let (header, header_len) = MsgHeader::decode(&decoded).unwrap();
    assert_eq!(header_len, 12);
    assert_eq!(header.protocol_version(), ProtocolVersion::V2013);
    assert_eq!(header.msg_id, 0x0002);
}

#[test]
fn test_build_heartbeat_2019() {
    let frame = build_heartbeat(ProtocolVersion::V2019, "61316263600001", 1);
    assert_eq!(frame[0], 0x7E);
    assert_eq!(*frame.last().unwrap(), 0x7E);

    let (decoded, _) = decode_message(&frame).unwrap();
    let (header, header_len) = MsgHeader::decode(&decoded).unwrap();
    assert_eq!(header_len, 17);
    assert_eq!(header.protocol_version(), ProtocolVersion::V2019);
    assert_eq!(header.version, Some(1));
    assert_eq!(header.msg_id, 0x0002);
    assert_eq!(header.terminal_id, "61316263600001");
    assert_eq!(decoded[4], 0x01);
    assert_eq!(&decoded[5..15], &[0x00, 0x00, 0x00, 0x61, 0x31, 0x62, 0x63, 0x60, 0x00, 0x01]);
}

#[test]
fn test_build_register() {
    let frame = build_register(
        ProtocolVersion::V2013,
        "013900000001", 1, 31, 1, "MFG01", "MODEL01", "TID0001", 1, "京A88888",
    );
    assert_eq!(frame[0], 0x7E);
    assert_eq!(*frame.last().unwrap(), 0x7E);
}

#[test]
fn test_build_register_2019() {
    let frame = build_register(
        ProtocolVersion::V2019,
        "013900000001", 1, 31, 1, "MFG01", "MODEL01", "013900000001", 1, "京A88888",
    );
    let (decoded, _) = decode_message(&frame).unwrap();
    let (header, header_len) = MsgHeader::decode(&decoded).unwrap();
    assert_eq!(header.protocol_version(), ProtocolVersion::V2019);
    let body = &decoded[header_len..];
    assert_eq!(body.len(), 4 + 11 + 30 + 30 + 1 + 2 + 6);
    let parsed = parse_message(header.protocol_version(), header.msg_id, body);
    match parsed {
        ParsedMessage::TerminalRegister(r) => {
            assert_eq!(r.terminal_id, "013900000001");
            assert_eq!(r.plate_number, "京A88888");
        }
        other => panic!("expected TerminalRegister, got {}", other.name()),
    }
}

#[test]
fn test_build_auth() {
    let frame = build_auth(ProtocolVersion::V2013, "013900000001", 1, "AUTH1234", "", "");
    assert_eq!(frame[0], 0x7E);
    assert_eq!(*frame.last().unwrap(), 0x7E);
}

#[test]
fn test_build_auth_2019() {
    let frame = build_auth(
        ProtocolVersion::V2019,
        "61316263600001",
        2,
        "AUTH1234",
        "861234567890123",
        "V1.0.0",
    );
    let (decoded, _) = decode_message(&frame).unwrap();
    let (header, header_len) = MsgHeader::decode(&decoded).unwrap();
    assert_eq!(header.protocol_version(), ProtocolVersion::V2019);
    assert_eq!(header.serial_no, 2);
    let body = &decoded[header_len..];
    assert_eq!(body.len(), 44);
    let parsed = parse_message(header.protocol_version(), header.msg_id, body);
    match parsed {
        ParsedMessage::TerminalAuth(a) => {
            assert_eq!(a.auth_code, "AUTH1234");
            assert_eq!(a.imei, "861234567890123");
            assert_eq!(a.software_version, "V1.0.0");
        }
        other => panic!("expected TerminalAuth, got {}", other.name()),
    }
}

#[test]
fn test_decode_heartbeat() {
    let frame = build_heartbeat(ProtocolVersion::V2013, "013900000001", 1);
    let (decoded, _) = decode_message(&frame).unwrap();
    assert!(decoded.len() >= 12);
    let msg_id = u16::from_be_bytes([decoded[0], decoded[1]]);
    assert_eq!(msg_id, 0x0002);
}

#[test]
fn build_heartbeat_exact_frame() {
    // 0002 0000 013900000001 0001, checksum 0x3A
    assert_eq!(
        build_heartbeat(ProtocolVersion::V2013, "013900000001", 1),
        vec![0x7E, 0x00, 0x02, 0x00, 0x00, 0x01, 0x39, 0x00, 0x00, 0x00, 0x01, 0x00, 0x01, 0x3A, 0x7E]
    );
}

#[test]
fn build_frame_sets_body_length() {
    let frame = build_frame(ProtocolVersion::V2013, 0x0900, "082255301774", 3, &[0xAA, 0xBB, 0xCC]);
    let (decoded, rest) = decode_message(&frame).unwrap();
    assert!(rest.is_empty());
    let (header, n) = MsgHeader::decode(&decoded).unwrap();
    assert_eq!(header.body_props.body_len, 3);
    assert_eq!(header.serial_no, 3);
    assert_eq!(header.terminal_id, "082255301774");
    assert_eq!(&decoded[n..], &[0xAA, 0xBB, 0xCC]);
}

#[test]
fn location_report_frames() {
    let frame = build_location_report_at(ProtocolVersion::V2013, "013900000001", 4, 1, 2, 3, 4, 5, "240102030405");
    let (decoded, _) = decode_message(&frame).unwrap();
    let (_, n) = MsgHeader::decode(&decoded).unwrap();
    let r = LocationReport::decode(&decoded[n..], ProtocolVersion::V2013).unwrap();
    assert_eq!((r.latitude, r.longitude, r.altitude, r.speed, r.direction), (1, 2, 3, 4, 5));
    assert_eq!(r.timestamp, "240102030405");

    let now = build_location_report(ProtocolVersion::V2019, "013900000001", 5, 1, 2, 3, 4, 5).unwrap();
    let (decoded, _) = decode_message(&now).unwrap();
    let (h, n) = MsgHeader::decode(&decoded).unwrap();
    assert_eq!(h.msg_id, 0x0200);
    let r = LocationReport::decode(&decoded[n..], ProtocolVersion::V2019).unwrap();
    assert_eq!(r.timestamp.len(), 12);
    assert!(r.timestamp.chars().all(|c| c.is_ascii_digit()));
}

#[test]
fn timestamps_from_clock_readings() {
    let t = timestamp_at(0, 0).unwrap();
    assert_eq!(t.len(), 12);
    assert!(t.chars().all(|c| c.is_ascii_digit()));
    assert!(timestamp_at(1_700_000_000, 999_999_999).is_some());
    assert!(timestamp_at(LOCAL_TIME_LIMIT, 0).is_none());
    assert!(timestamp_at(u64::MAX, 0).is_none());
}
