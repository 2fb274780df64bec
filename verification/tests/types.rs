use tcptool::protocol::types::{
    bcd_to_string, string_to_bcd, BodyProps, MsgHeader, ProtocolVersion, SubpackageInfo,
};

#[test]
fn test_protocol_version_generic_tcp() {
    assert_eq!(ProtocolVersion::from_str_loose("TCP"), ProtocolVersion::GenericTcp);
    assert_eq!(ProtocolVersion::from_str_loose("通用TCP"), ProtocolVersion::GenericTcp);
    assert_eq!(ProtocolVersion::from_str_loose("2019"), ProtocolVersion::V2019);
    assert_eq!(ProtocolVersion::from_str_loose("2013"), ProtocolVersion::V2013);
    assert!(ProtocolVersion::GenericTcp.is_generic());
    assert!(!ProtocolVersion::V2019.is_generic());
    assert!(!ProtocolVersion::GenericTcp.is_jt808());
    assert!(ProtocolVersion::V2013.is_jt808());
    assert_eq!(ProtocolVersion::GenericTcp.short_name(), "TCP");
}

#[test]
fn test_bcd_roundtrip() {
    let bcd = string_to_bcd("013900000001", 6);
    assert_eq!(bcd, vec![0x01, 0x39, 0x00, 0x00, 0x00, 0x01]);
    assert_eq!(bcd_to_string(&bcd), "013900000001");
}

#[test]
fn test_sn_2019_left_zero_padded() {
    let bytes = string_to_bcd("61316263600001", 10);
    assert_eq!(bytes, vec![0x00, 0x00, 0x00, 0x61, 0x31, 0x62, 0x63, 0x60, 0x00, 0x01]);
    assert_eq!(bcd_to_string(&bytes), "00000061316263600001");
}

#[test]
fn test_sn_hex_chars() {
    let bytes = string_to_bcd("AF1234567890", 6);
    assert_eq!(bytes, vec![0xAF, 0x12, 0x34, 0x56, 0x78, 0x90]);
    assert_eq!(bcd_to_string(&bytes), "AF1234567890");
}

#[test]
fn test_header_2013_roundtrip() {
    let header = MsgHeader {
        msg_id: 0x0002,
        body_props: BodyProps::default(),
        terminal_id: "013900000001".into(),
        serial_no: 7,
        subpackage: None,
        version: None,
    };
    let bytes = header.encode();
    assert_eq!(bytes.len(), 12);
    let (decoded, header_len) = MsgHeader::decode(&bytes).unwrap();
    assert_eq!(header_len, 12);
    assert_eq!(decoded.msg_id, 0x0002);
    assert_eq!(decoded.terminal_id, "013900000001");
    assert_eq!(decoded.serial_no, 7);
    assert_eq!(decoded.protocol_version(), ProtocolVersion::V2013);
}

#[test]
fn test_header_2019_roundtrip() {
    let header = MsgHeader {
        msg_id: 0x0200,
        body_props: BodyProps { body_len: 28, encryption: 0, has_subpackage: false },
        terminal_id: "61316263600001".into(),
        serial_no: 9,
        subpackage: None,
        version: Some(1),
    };
    let bytes = header.encode();
    assert_eq!(bytes.len(), 17);
    assert_eq!(u16::from_be_bytes([bytes[2], bytes[3]]), 28 | (1 << 14));
    assert_eq!(bytes[4], 0x01);
    assert_eq!(&bytes[5..15], &[0x00, 0x00, 0x00, 0x61, 0x31, 0x62, 0x63, 0x60, 0x00, 0x01]);
    let (decoded, header_len) = MsgHeader::decode(&bytes).unwrap();
    assert_eq!(header_len, 17);
    assert_eq!(decoded.terminal_id, "61316263600001");
    assert_eq!(decoded.serial_no, 9);
    assert_eq!(decoded.version, Some(1));
    assert_eq!(decoded.protocol_version(), ProtocolVersion::V2019);
}

#[test]
fn test_decode_platform_2019_response() {
    let bytes = [
        0x80, 0x01, 0x40, 0x05, 0x01, 0x00, 0x00, 0x00, 0x61, 0x31, 0x62, 0x63, 0x60, 0x00, 0x01,
        0x00, 0x03, 0x00, 0x27, 0x09, 0x00, 0x00,
    ];
    let (header, header_len) = MsgHeader::decode(&bytes).unwrap();
    assert_eq!(header_len, 17);
    assert_eq!(header.msg_id, 0x8001);
    assert_eq!(header.protocol_version(), ProtocolVersion::V2019);
    assert_eq!(header.version, Some(1));
    assert_eq!(header.terminal_id, "61316263600001");
    assert_eq!(header.serial_no, 3);
    assert_eq!(header.body_props.body_len, 5);
    assert_eq!(&bytes[header_len..], &[0x00, 0x27, 0x09, 0x00, 0x00]);
}

#[test]
fn test_header_2019_subpackage() {
    let header = MsgHeader {
        msg_id: 0x0200,
        body_props: BodyProps { body_len: 100, encryption: 0, has_subpackage: true },
        terminal_id: "013900000001".into(),
        serial_no: 9,
        subpackage: Some(SubpackageInfo { total: 3, seq: 2 }),
        version: Some(1),
    };
    let bytes = header.encode();
    assert_eq!(bytes.len(), 21);
    let (decoded, header_len) = MsgHeader::decode(&bytes).unwrap();
    assert_eq!(header_len, 21);
    assert_eq!(decoded.subpackage.as_ref().unwrap().total, 3);
    assert_eq!(decoded.subpackage.as_ref().unwrap().seq, 2);
}

#[test]
fn protocol_version_names_and_fields() {
    assert_eq!(ProtocolVersion::all(), &[ProtocolVersion::V2013, ProtocolVersion::V2019, ProtocolVersion::GenericTcp]);
    assert_eq!(ProtocolVersion::V2013.name(), "JT808-2013");
    assert_eq!(ProtocolVersion::V2019.name(), "JT808-2019");
    assert_eq!(ProtocolVersion::GenericTcp.name(), "通用TCP");
    assert_eq!(ProtocolVersion::V2019.short_name(), "2019");
    assert_eq!(ProtocolVersion::V2019.phone_len(), 10);
    assert_eq!(ProtocolVersion::V2013.phone_len(), 6);
    assert_eq!(ProtocolVersion::GenericTcp.phone_len(), 6);
    assert!(ProtocolVersion::V2019.has_version_field());
    assert!(!ProtocolVersion::V2013.has_version_field());
    assert_eq!(ProtocolVersion::V2019.version_number(), Some(1));
    assert_eq!(ProtocolVersion::GenericTcp.version_number(), None);
    assert_eq!(ProtocolVersion::default(), ProtocolVersion::V2013);
}

#[test]
fn from_str_loose_cases() {
    assert_eq!(ProtocolVersion::from_str_loose("tcp"), ProtocolVersion::GenericTcp);
    assert_eq!(ProtocolVersion::from_str_loose("General purpose"), ProtocolVersion::GenericTcp);
    assert_eq!(ProtocolVersion::from_str_loose("JT808-2019"), ProtocolVersion::V2019);
    assert_eq!(ProtocolVersion::from_str_loose("TCP 2019"), ProtocolVersion::GenericTcp);
    assert_eq!(ProtocolVersion::from_str_loose(""), ProtocolVersion::V2013);
    assert_eq!(ProtocolVersion::from_str_loose("通用"), ProtocolVersion::GenericTcp);
}

#[test]
fn body_props_encode_exact() {
    let p = BodyProps { body_len: 0x3FF, encryption: 5, has_subpackage: true };
    assert_eq!(p.encode(), 0x3FF | (5 << 10) | (1 << 13));
    let q = BodyProps { body_len: 1025, encryption: 9, has_subpackage: false };
    assert_eq!(q.encode(), 1 | (1 << 10));
}

#[test]
fn string_to_bcd_skips_and_truncates() {
    assert_eq!(string_to_bcd("12-34 ab", 3), vec![0x12, 0x34, 0xAB]);
    assert_eq!(string_to_bcd("123456789", 2), vec![0x67, 0x89]);
    assert_eq!(string_to_bcd("", 2), vec![0x00, 0x00]);
    assert_eq!(bcd_to_string(&[0xDE, 0x0A]), "DE0A");
}

#[test]
fn header_decode_errors() {
    assert_eq!(MsgHeader::decode(&[0x00, 0x02, 0x00]).unwrap_err(), "消息头过短");
    assert_eq!(MsgHeader::decode(&[0x00, 0x02, 0x40, 0x00]).unwrap_err(), "消息头版本号缺失");
    assert_eq!(MsgHeader::decode(&[0x00, 0x02, 0x00, 0x00, 0x01]).unwrap_err(), "消息头终端SN不完整");
    let mut bytes = vec![0x00, 0x02, 0x20, 0x00];
    bytes.extend_from_slice(&[0u8; 8]);
    assert_eq!(MsgHeader::decode(&bytes).unwrap_err(), "消息头分包信息不完整");
}

#[test]
fn header_2019_all_zero_sn_kept() {
    let mut bytes = vec![0x00, 0x02, 0x40, 0x00, 0x01];
    bytes.extend_from_slice(&[0u8; 12]);
    let (h, n) = MsgHeader::decode(&bytes).unwrap();
    assert_eq!(n, 17);
    assert_eq!(h.terminal_id, "00000000000000000000");
}

#[test]
fn short_names_read_back() {
    for v in ProtocolVersion::all() {
        assert_eq!(ProtocolVersion::from_str_loose(v.short_name()), *v);
    }
}

#[test]
fn bcd_text_layout_and_hex_round_trip() {
    assert_eq!(bcd_to_string(&[0xAF, 0x01, 0x9C]), "AF019C");
    assert_eq!(bcd_to_string(&string_to_bcd("AF019C", 3)), "AF019C");
}

#[test]
fn display_names_read_back() {
    for v in ProtocolVersion::all() {
        assert_eq!(ProtocolVersion::from_str_loose(v.name()), *v);
    }
}
