use tcptool::protocol::codec::decode_message;
use tcptool::protocol::message::{
    parse_message, ExtraItem, Heartbeat, Jt808Message, LocationReport, ParameterItem, ParameterSet,
    ParsedMessage, PlatformGeneralResponse, QueryTerminalAttrResponse, RegisterResponse,
    TerminalAuth, TerminalGeneralResponse, TerminalRegister, TextMessage, VehicleControl,
};

use tcptool::protocol::types::{MsgHeader, ProtocolVersion};

#[test]
fn test_register_roundtrip_2013() {
    let reg = TerminalRegister {
        province_id: 31,
        city_id: 1,
        manufacturer_id: "MFG01".into(),
        terminal_model: "MODEL01".into(),
        terminal_id: "TID0001".into(),
        color: 1,
        plate_number: "京A88888".into(),
    };
    let body = reg.encode(ProtocolVersion::V2013);
    let decoded = TerminalRegister::decode(&body, ProtocolVersion::V2013).unwrap();
    assert_eq!(decoded.manufacturer_id, "MFG01");
    assert_eq!(decoded.terminal_model, "MODEL01");
    assert_eq!(decoded.terminal_id, "TID0001");
    assert_eq!(decoded.plate_number, "京A88888");
}

#[test]
fn test_register_roundtrip_2019() {
    let reg = TerminalRegister {
        province_id: 31,
        city_id: 1,
        manufacturer_id: "MFG2019ABCD".into(),
        terminal_model: "TERMINAL-MODEL-2019".into(),
        terminal_id: "013900000001".into(),
        color: 1,
        plate_number: "京A88888".into(),
    };
    let body = reg.encode(ProtocolVersion::V2019);
    let (mfg, model, tid) = TerminalRegister::field_lengths(ProtocolVersion::V2019);
    assert_eq!(body.len(), 4 + mfg + model + tid + 1 + encoding_rs::GBK.encode("京A88888").0.len());
    let decoded = TerminalRegister::decode(&body, ProtocolVersion::V2019).unwrap();
    assert_eq!(decoded.manufacturer_id, "MFG2019ABCD");
    assert_eq!(decoded.terminal_model, "TERMINAL-MODEL-2019");
    assert_eq!(decoded.terminal_id, "013900000001");
    assert_eq!(decoded.plate_number, "京A88888");
}

#[test]
fn test_auth_2013_vs_2019() {
    let auth = TerminalAuth {
        auth_code: "AUTH1234".into(),
        imei: "861234567890123".into(),
        software_version: "V1.0.0".into(),
    };
    let body_2013 = auth.encode(ProtocolVersion::V2013);
    assert_eq!(body_2013, b"AUTH1234");
    let body_2019 = auth.encode(ProtocolVersion::V2019);
    assert_eq!(body_2019[0], 8);
    assert_eq!(&body_2019[1..9], b"AUTH1234");
    assert_eq!(body_2019.len(), 1 + 8 + 15 + 20);
    assert_eq!(&body_2019[9..24], b"861234567890123");
    assert_eq!(&body_2019[24..30], b"V1.0.0");

    let decoded_2019 = TerminalAuth::decode(&body_2019, ProtocolVersion::V2019).unwrap();
    assert_eq!(decoded_2019.auth_code, "AUTH1234");
    assert_eq!(decoded_2019.imei, "861234567890123");
    assert_eq!(decoded_2019.software_version, "V1.0.0");
    let decoded_2013 = TerminalAuth::decode(&body_2013, ProtocolVersion::V2013).unwrap();
    assert_eq!(decoded_2013.auth_code, "AUTH1234");
}

#[test]
fn test_parse_platform_2019_response_frame() {
    let frame = [
        0x7e, 0x80, 0x01, 0x40, 0x05, 0x01, 0x00, 0x00, 0x00, 0x61, 0x31, 0x62, 0x63, 0x60, 0x00,
        0x01, 0x00, 0x03, 0x00, 0x27, 0x09, 0x00, 0x00, 0xd8, 0x7e,
    ];
    let (msg, _rest) = decode_message(&frame).unwrap();
    let (header, header_len) = MsgHeader::decode(&msg).unwrap();
    assert_eq!(header.protocol_version(), ProtocolVersion::V2019);
    assert_eq!(header.terminal_id, "61316263600001");
    assert_eq!(header.serial_no, 3);
    let body = &msg[header_len..];
    match parse_message(header.protocol_version(), header.msg_id, body) {
        ParsedMessage::PlatformGeneralResponse(r) => {
            assert_eq!(r.response_serial_no, 39);
            assert_eq!(r.response_msg_id, 0x0900);
            assert_eq!(r.result, 0);
        }
        other => panic!("expected PlatformGeneralResponse, got {}", other.name()),
    }
}

#[test]
fn test_query_terminal_attr_roundtrip_2019() {
    let attr = QueryTerminalAttrResponse {
        terminal_type: 0x0001,
        manufacturer_id: "MFG01".into(),
        terminal_model: "MODEL-2019".into(),
        terminal_id: "013900000001".into(),
        iccid: "89860012345678901234".into(),
        hardware_version: "HW1.0".into(),
        firmware_version: "FW2.0".into(),
        gnss_attr: 0x03,
        comm_attr: 0x20,
    };
    let body = attr.encode(ProtocolVersion::V2019);
    assert_eq!(body.len(), 2 + 5 + 30 + 30 + 10 + 6 + 6 + 1 + 1);
    let decoded = QueryTerminalAttrResponse::decode(&body, ProtocolVersion::V2019).unwrap();
    assert_eq!(decoded.terminal_model, "MODEL-2019");
    assert_eq!(decoded.terminal_id, "013900000001");
    assert_eq!(decoded.iccid, "89860012345678901234");
    assert_eq!(decoded.hardware_version, "HW1.0");
    assert_eq!(decoded.firmware_version, "FW2.0");
    assert_eq!(decoded.gnss_attr, 0x03);
    assert_eq!(decoded.comm_attr, 0x20);
}

#[test]
fn test_parse_message_2019() {
    let reg = TerminalRegister {
        province_id: 31,
        city_id: 1,
        manufacturer_id: "MFG".into(),
        terminal_model: "MODEL".into(),
        terminal_id: "013900000001".into(),
        color: 1,
        plate_number: "京A88888".into(),
    };
    let body = reg.encode(ProtocolVersion::V2019);
    let parsed = parse_message(ProtocolVersion::V2019, 0x0100, &body);
    assert_eq!(parsed.name(), "终端注册");
}

#[test]
fn general_responses_exact_bytes() {
    let t = TerminalGeneralResponse { response_serial_no: 0x1234, response_msg_id: 0x8001, result: 2 };
    assert_eq!(t.encode(ProtocolVersion::V2013), vec![0x12, 0x34, 0x80, 0x01, 0x02]);
    let p = PlatformGeneralResponse::decode(&[0x00, 0x27, 0x09, 0x00, 0x04], ProtocolVersion::V2019).unwrap();
    assert_eq!((p.response_serial_no, p.response_msg_id, p.result), (39, 0x0900, 4));
    assert_eq!(
        TerminalGeneralResponse::decode(&[0, 1, 2, 3], ProtocolVersion::V2013).unwrap_err(),
        "TerminalGeneralResponse: too short"
    );
    assert_eq!(TerminalGeneralResponse::msg_id(), 0x0001);
    assert_eq!(PlatformGeneralResponse::msg_id(), 0x8001);
}

#[test]
fn short_bodies_are_errors() {
    assert_eq!(TerminalRegister::decode(&[0u8; 36], ProtocolVersion::V2013).unwrap_err(), "TerminalRegister: too short (need 37 bytes)");
    assert_eq!(TerminalRegister::decode(&[0u8; 75], ProtocolVersion::V2019).unwrap_err(), "TerminalRegister: too short (need 76 bytes)");
    assert_eq!(RegisterResponse::decode(&[0, 1], ProtocolVersion::V2013).unwrap_err(), "RegisterResponse: too short");
    assert_eq!(TerminalAuth::decode(&[], ProtocolVersion::V2019).unwrap_err(), "TerminalAuth: too short");
    assert_eq!(LocationReport::decode(&[0u8; 27], ProtocolVersion::V2013).unwrap_err(), "LocationReport: too short");
    assert_eq!(ParameterSet::decode(&[], ProtocolVersion::V2013).unwrap_err(), "ParameterSet: empty");
    assert_eq!(TextMessage::decode(&[], ProtocolVersion::V2013).unwrap_err(), "TextMessage: empty");
    assert_eq!(VehicleControl::decode(&[], ProtocolVersion::V2013).unwrap_err(), "VehicleControl: empty");
    assert_eq!(QueryTerminalAttrResponse::decode(&[0u8; 43], ProtocolVersion::V2013).unwrap_err(), "QueryTerminalAttrResponse: too short");
    assert!(Heartbeat::decode(&[], ProtocolVersion::V2013).is_ok());
}

#[test]
fn register_response_roundtrip() {
    let r = RegisterResponse { response_serial_no: 5, result: 0, auth_code: "CODE-1".into() };
    let body = r.encode(ProtocolVersion::V2013);
    assert_eq!(body, vec![0x00, 0x05, 0x00, b'C', b'O', b'D', b'E', b'-', b'1']);
    let mut padded = body.clone();
    padded.extend_from_slice(&[0, 0]);
    let d = RegisterResponse::decode(&padded, ProtocolVersion::V2013).unwrap();
    assert_eq!(d.auth_code, "CODE-1");
    assert_eq!(d.response_serial_no, 5);
}

#[test]
fn location_report_roundtrip_with_items() {
    let rep = LocationReport {
        alarm_flags: 1,
        status: 2,
        latitude: 116397428,
        longitude: 39916527,
        altitude: 50,
        speed: 60,
        direction: 90,
        timestamp: "240102030405".into(),
        extra_items: vec![ExtraItem { id: 0x01, value: vec![0, 0, 0, 7] }, ExtraItem { id: 0x30, value: vec![0x1F] }],
    };
    let body = rep.encode(ProtocolVersion::V2013);
    assert_eq!(body.len(), 28 + 6 + 3);
    assert_eq!(&body[22..28], &[0x24, 0x01, 0x02, 0x03, 0x04, 0x05]);
    let d = LocationReport::decode(&body, ProtocolVersion::V2013).unwrap();
    assert_eq!(d.latitude, 116397428);
    assert_eq!(d.longitude, 39916527);
    assert_eq!(d.timestamp, "240102030405");
    assert_eq!(d.extra_items.len(), 2);
    assert_eq!(d.extra_items[0].value, vec![0, 0, 0, 7]);
    assert_eq!(d.extra_items[1].id, 0x30);
}

#[test]
fn location_report_drops_truncated_item() {
    let mut body = vec![0u8; 28];
    body.extend_from_slice(&[0x01, 0x05, 0xAA]);
    let d = LocationReport::decode(&body, ProtocolVersion::V2013).unwrap();
    assert!(d.extra_items.is_empty());
}

#[test]
fn parameter_set_roundtrip() {
    let p = ParameterSet {
        total: 2,
        items: vec![
            ParameterItem { param_id: 0x0001, param_value: vec![0, 0, 0, 30] },
            ParameterItem { param_id: 0x0013, param_value: b"host".to_vec() },
        ],
    };
    let body = p.encode(ProtocolVersion::V2013);
    assert_eq!(&body[..6], &[2, 0, 0, 0, 1, 4]);
    let d = ParameterSet::decode(&body, ProtocolVersion::V2013).unwrap();
    assert_eq!(d.total, 2);
    assert_eq!(d.items.len(), 2);
    assert_eq!(d.items[1].param_id, 0x0013);
    assert_eq!(d.items[1].param_value, b"host".to_vec());
}

#[test]
fn text_and_vehicle_control() {
    let t = TextMessage { flag: 1, text: "hello".into() };
    let body = t.encode(ProtocolVersion::V2013);
    assert_eq!(body, b"\x01hello".to_vec());
    let d = TextMessage::decode(&body, ProtocolVersion::V2013).unwrap();
    assert_eq!(d.text, "hello");
    let v = VehicleControl { control_flag: 0x40 };
    assert_eq!(v.encode(ProtocolVersion::V2019), vec![0x40]);
    assert_eq!(VehicleControl::decode(&[0x41, 0x00], ProtocolVersion::V2019).unwrap().control_flag, 0x41);
}

#[test]
fn parsed_message_names_ids_descriptions() {
    let m = parse_message(ProtocolVersion::V2013, 0x0001, &[0x00, 0x01, 0x01, 0x02, 0x00]);
    assert_eq!(m.msg_id(), 0x0001);
    assert_eq!(m.name(), "终端通用应答");
    assert_eq!(m.description(), "应答ID:0x0102 结果:0");
    let u = parse_message(ProtocolVersion::V2013, 0x0900, &[1, 2, 3]);
    assert_eq!(u.msg_id(), 0x0900);
    assert_eq!(u.name(), "未知消息");
    assert_eq!(u.description(), "ID:0x0900 长度:3");
    let bad = parse_message(ProtocolVersion::V2013, 0x8500, &[]);
    assert_eq!(bad.msg_id(), 0x8500);
    assert_eq!(bad.name(), "未知消息");
    let vc = parse_message(ProtocolVersion::V2013, 0x8500, &[0x0A]);
    assert_eq!(vc.description(), "控制标志:0x0A");
    let hb = parse_message(ProtocolVersion::V2013, 0x0002, &[]);
    assert_eq!(hb.description(), "心跳");
    let ps = parse_message(ProtocolVersion::V2013, 0x8103, &[12]);
    assert_eq!(ps.description(), "12个参数");
}

#[test]
fn auth_2019_short_fields() {
    // code length larger than the data: code runs to the end, no IMEI or version
    let d = TerminalAuth::decode(&[9, b'A', b'B'], ProtocolVersion::V2019).unwrap();
    assert_eq!(d.auth_code, "AB");
    assert_eq!(d.imei, "");
    assert_eq!(d.software_version, "");
}

#[test]
fn text_fields_decode_gbk_and_lossy_utf8() {
    // GBK text of a text message
    let d = TextMessage::decode(&[0x01, 0xD6, 0xD0, 0xCE, 0xC4], ProtocolVersion::V2013).unwrap();
    assert_eq!(d.flag, 1);
    assert_eq!(d.text, "中文");
    let t = TextMessage { flag: 2, text: "中文".into() };
    assert_eq!(t.encode(ProtocolVersion::V2013), vec![0x02, 0xD6, 0xD0, 0xCE, 0xC4]);
    // an authentication code with a byte that is not UTF-8, padded with NULs
    let r = RegisterResponse::decode(&[0x00, 0x01, 0x00, 0x41, 0xFF, 0x00, 0x00], ProtocolVersion::V2013).unwrap();
    assert_eq!(r.auth_code, "A\u{FFFD}");
}

#[test]
fn location_report_with_digit_timestamp_reads_back() {
    let r = LocationReport {
        alarm_flags: 1,
        status: 2,
        latitude: 3,
        longitude: 4,
        altitude: 5,
        speed: 6,
        direction: 7,
        timestamp: "240102030405".into(),
        extra_items: vec![ExtraItem { id: 0x01, value: vec![9, 9] }],
    };
    let d = LocationReport::decode(&r.encode(ProtocolVersion::V2019), ProtocolVersion::V2019).unwrap();
    assert_eq!(d.timestamp, "240102030405");
    assert_eq!((d.alarm_flags, d.status, d.latitude, d.longitude), (1, 2, 3, 4));
    assert_eq!((d.altitude, d.speed, d.direction), (5, 6, 7));
    assert_eq!(d.extra_items.len(), 1);
    assert_eq!(d.extra_items[0].value, vec![9, 9]);
}
