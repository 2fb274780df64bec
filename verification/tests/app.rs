use tcptool::app::{
    analyze_received, auth_code_to_send, csv_header, csv_row, encode_input, general_response_for,
    hex_dump, is_cjk_font_name, message_summary, msg_id_text, names_cjk_font, parse_hex_text,
    parse_msg_id_text, reframe_quick_command, selection_after_delete, version_switch_needed,
    version_switch_notice, AckRefusal, Direction, Encoding, HexInput, QuickCommand, QuickSend,
};
use tcptool::protocol::message::{Heartbeat, RegisterResponse, TerminalGeneralResponse};
use tcptool::protocol::builder::build_frame;
use tcptool::protocol::codec::decode_message;
use tcptool::protocol::message::{parse_message, Jt808Message, ParsedMessage, TerminalAuth};
use tcptool::protocol::types::{MsgHeader, ProtocolVersion};

fn hex_to_bytes(s: &str) -> Vec<u8> {
    let clean: String = s.chars().filter(|c| c.is_ascii_hexdigit()).collect();
    (0..clean.len())
        .step_by(2)
        .map(|i| u8::from_str_radix(&clean[i..i + 2], 16).unwrap())
        .collect()
}

const REGISTER_2019: &str = "7e0100405301000000613162636000010001000000004e54424d530000000000004e542d424d532d323031390000000000000000000000000000000000000036313331363236333630303030310000000000000000000000000000000000544553543030310c7e";
const AUTH_2019: &str = "7e0102403a010000006131626360000100021636313331363236333630303030312c5445535430303138363132333435363738393031323356312e302e300000000000000000000000000000000c7e";
const HEARTBEAT_2019: &str = "7e0002400001000000613162636000010003707e";

#[test]
fn test_reframe_register_uses_target_sn() {
    let bytes = hex_to_bytes(REGISTER_2019);
    let (msg_id, body) =
        reframe_quick_command(&bytes, ProtocolVersion::V2019, "99999999999999", "", "").unwrap();
    assert_eq!(msg_id, 0x0100);
    let frame = build_frame(ProtocolVersion::V2019, msg_id, "99999999999999", 7, &body);
    let (msg, _) = decode_message(&frame).unwrap();
    let (header, header_len) = MsgHeader::decode(&msg).unwrap();
    assert_eq!(header.terminal_id, "99999999999999");
    match parse_message(header.protocol_version(), header.msg_id, &msg[header_len..]) {
        ParsedMessage::TerminalRegister(r) => {
            assert_eq!(r.terminal_id, "99999999999999");
            assert_eq!(r.manufacturer_id, "NTBMS");
        }
        other => panic!("expected TerminalRegister, got {}", other.name()),
    }
}

#[test]
fn test_reframe_auth_2019_to_2013() {
    let bytes = hex_to_bytes(AUTH_2019);
    let (msg_id, body) =
        reframe_quick_command(&bytes, ProtocolVersion::V2013, "082255301774", "", "").unwrap();
    assert_eq!(msg_id, 0x0102);
    assert_eq!(body, b"61316263600001,TEST001");
}

#[test]
fn test_reframe_auth_2019_keeps_2019_fields() {
    let bytes = hex_to_bytes(AUTH_2019);
    let (msg_id, body) =
        reframe_quick_command(&bytes, ProtocolVersion::V2019, "61316263600001", "", "").unwrap();
    assert_eq!(msg_id, 0x0102);
    let decoded = TerminalAuth::decode(&body, ProtocolVersion::V2019).unwrap();
    assert_eq!(decoded.auth_code, "61316263600001,TEST001");
    assert_eq!(decoded.imei, "861234567890123");
    assert_eq!(decoded.software_version, "V1.0.0");
}

#[test]
fn test_reframe_heartbeat_and_unknown() {
    let bytes = hex_to_bytes(HEARTBEAT_2019);
    let (msg_id, body) =
        reframe_quick_command(&bytes, ProtocolVersion::V2019, "082255301774", "", "").unwrap();
    assert_eq!(msg_id, 0x0002);
    assert!(body.is_empty());

    let frame = build_frame(ProtocolVersion::V2013, 0x0900, "082255301774", 1, &[0xAA, 0xBB, 0xCC]);
    let (msg_id, body) =
        reframe_quick_command(&frame, ProtocolVersion::V2019, "61316263600001", "", "").unwrap();
    assert_eq!(msg_id, 0x0900);
    assert_eq!(body, vec![0xAA, 0xBB, 0xCC]);
}

#[test]
fn test_reframe_non_jt808_returns_none() {
    assert!(reframe_quick_command(&[0x01, 0x02, 0x03], ProtocolVersion::V2019, "x", "", "").is_none());
}

#[test]
fn reframe_auth_fills_missing_2019_fields() {
    let frame = build_frame(ProtocolVersion::V2013, 0x0102, "013900000001", 1, b"CODE");
    let (msg_id, body) =
        reframe_quick_command(&frame, ProtocolVersion::V2019, "013900000001", "861234567890123", "V2").unwrap();
    assert_eq!(msg_id, 0x0102);
    let a = TerminalAuth::decode(&body, ProtocolVersion::V2019).unwrap();
    assert_eq!(a.auth_code, "CODE");
    assert_eq!(a.imei, "861234567890123");
    assert_eq!(a.software_version, "V2");
}

#[test]
fn reframe_broken_frame_returns_none() {
    // right start, bad checksum
    assert!(reframe_quick_command(&[0x7E, 0x00, 0x02, 0x00, 0x00, 0x55, 0x7E], ProtocolVersion::V2013, "1", "", "").is_none());
}

#[test]
fn directions_and_encodings() {
    assert_eq!(Direction::Send.arrow(), "→");
    assert_eq!(Direction::Receive.arrow(), "←");
    assert_eq!(Direction::Send.name(), "发送");
    assert_eq!(Direction::Receive.name(), "接收");
    assert_eq!(Encoding::all().len(), 4);
    assert_eq!(Encoding::all()[3], Encoding::HEX);
    assert_eq!(Encoding::UTF8.name(), "UTF-8");
    assert_eq!(Encoding::GBK.name(), "GBK");
}

#[test]
fn quick_command_ids() {
    let c = QuickCommand::with_nanos("n", "7e00", 0x1a2b);
    assert_eq!(c.id, "cmd-1a2b");
    assert_eq!(c.msg_id, 0);
    let d = QuickCommand::new("新指令", "");
    assert!(d.id.starts_with("cmd-"));
    assert_eq!(d.name, "新指令");
}

fn command(raw_hex: &str, msg_id: u16) -> QuickCommand {
    let mut c = QuickCommand::with_nanos("cmd", raw_hex, 1);
    c.msg_id = msg_id;
    c
}

#[test]
fn hex_dump_spaces_pairs() {
    assert_eq!(hex_dump(&[]), "");
    assert_eq!(hex_dump(&[0x7E]), "7E");
    assert_eq!(hex_dump(&[0x7E, 0x00, 0x0a, 0xFF]), "7E 00 0A FF");
}

#[test]
fn hex_text_reading() {
    assert!(matches!(parse_hex_text("7E 00,0a", false), HexInput::Bytes(b) if b == vec![0x7E, 0x00, 0x0A]));
    assert!(matches!(parse_hex_text("", false), HexInput::Bytes(b) if b.is_empty()));
    assert!(matches!(parse_hex_text("7E\n01", true), HexInput::Bytes(b) if b == vec![0x7E, 0x01]));
    assert!(matches!(parse_hex_text("7E\n01", false), HexInput::Invalid));
    assert!(matches!(parse_hex_text("zz", false), HexInput::Invalid));
    assert!(matches!(parse_hex_text("+f", false), HexInput::Bytes(b) if b == vec![0x0F]));
    assert!(matches!(parse_hex_text("7E0", false), HexInput::Unreadable));
    assert!(matches!(parse_hex_text("a通", false), HexInput::Unreadable));
}

#[test]
fn quick_command_plans() {
    // generic TCP: sent as typed, whatever the message ID
    assert!(matches!(command("01 02", 0x0200).plan(ProtocolVersion::GenericTcp, "1", "", ""),
        QuickSend::Raw(b) if b == vec![1, 2]));
    // a message ID frames the bytes as its body
    assert!(matches!(command("01 02", 0x0200).plan(ProtocolVersion::V2013, "1", "", ""),
        QuickSend::Frame(0x0200, b) if b == vec![1, 2]));
    // a complete frame is re-framed for the target version
    let hb = build_frame(ProtocolVersion::V2013, 0x0002, "013900000001", 3, &[]);
    let text = hex_dump(&hb);
    assert!(matches!(command(&text, 0).plan(ProtocolVersion::V2019, "1", "", ""),
        QuickSend::Frame(0x0002, b) if b.is_empty()));
    // other bytes go as they are
    assert!(matches!(command("01 02", 0).plan(ProtocolVersion::V2013, "1", "", ""),
        QuickSend::Raw(b) if b == vec![1, 2]));
    assert!(matches!(command(" , ", 0).plan(ProtocolVersion::V2013, "1", "", ""), QuickSend::Empty));
    assert!(matches!(command("GG", 0).plan(ProtocolVersion::V2013, "1", "", ""), QuickSend::InvalidHex));
    let c = QuickCommand::with_nanos("开门", "GG", 1);
    assert_eq!(c.hex_error_notice(), "⚠️ 快捷指令 [开门] HEX 格式错误");
}

#[test]
fn general_response_answers_selected_frame() {
    let frame = build_frame(ProtocolVersion::V2019, 0x0200, "013900000001", 42, &[1, 2, 3]);
    let r: TerminalGeneralResponse = general_response_for(Some(&frame)).unwrap();
    assert_eq!(r.response_serial_no, 42);
    assert_eq!(r.response_msg_id, 0x0200);
    assert_eq!(r.result, 0);
    assert!(matches!(general_response_for(None), Err(AckRefusal::NothingSelected)));
    assert!(matches!(general_response_for(Some(&[0x01, 0x7E])), Err(AckRefusal::NotJt808)));
    assert!(matches!(general_response_for(Some(&[])), Err(AckRefusal::NotJt808)));
    let mut bad = frame.clone();
    let n = bad.len();
    bad[n - 2] ^= 0x01;
    assert!(matches!(general_response_for(Some(&bad)), Err(AckRefusal::DecodeFailed)));
    let short = tcptool::protocol::codec::encode_message(&[0x00, 0x02, 0x00]);
    assert!(matches!(general_response_for(Some(&short)), Err(AckRefusal::BadHeader)));
    assert_eq!(AckRefusal::NotJt808.notice(), Some("⚠️ 选中的报文不是有效的 JT808 帧"));
    assert_eq!(AckRefusal::DecodeFailed.notice(), Some("⚠️ 选中的报文解析失败（校验码错误？）"));
    assert_eq!(AckRefusal::NothingSelected.notice(), Some("⚠️ 请先在报文流中选中一条接收报文，再发送通用应答"));
    assert_eq!(AckRefusal::BadHeader.notice(), None);
}

#[test]
fn received_frames_follow_header_version() {
    let frame = build_frame(ProtocolVersion::V2019, 0x0002, "013900000001", 1, &[]);
    let (parsed, version) = analyze_received(&frame, ProtocolVersion::V2013);
    assert_eq!(version, Some(ProtocolVersion::V2019));
    assert!(matches!(parsed, Some(ParsedMessage::Heartbeat(Heartbeat))));
    let frame = build_frame(ProtocolVersion::V2013, 0x0002, "013900000001", 1, &[]);
    let (_, version) = analyze_received(&frame, ProtocolVersion::V2019);
    assert_eq!(version, Some(ProtocolVersion::V2013));
    let (parsed, version) = analyze_received(&frame, ProtocolVersion::GenericTcp);
    assert!(parsed.is_none());
    assert_eq!(version, Some(ProtocolVersion::GenericTcp));
    let (parsed, version) = analyze_received(b"hello", ProtocolVersion::V2013);
    assert!(parsed.is_none());
    assert!(version.is_none());
}

#[test]
fn register_response_gives_auth_code() {
    let ok = RegisterResponse { response_serial_no: 1, result: 0, auth_code: "AUTH".to_string() };
    let body = ok.encode(ProtocolVersion::V2013);
    let frame = build_frame(ProtocolVersion::V2013, 0x8100, "013900000001", 2, &body);
    let (parsed, _) = analyze_received(&frame, ProtocolVersion::V2013);
    assert_eq!(auth_code_to_send(&parsed), Some("AUTH".to_string()));
    let refused = RegisterResponse { response_serial_no: 1, result: 1, auth_code: "AUTH".to_string() };
    assert_eq!(auth_code_to_send(&Some(ParsedMessage::RegisterResponse(refused))), None);
    assert_eq!(auth_code_to_send(&None), None);
}

#[test]
fn version_switching() {
    assert!(version_switch_needed(Some(ProtocolVersion::V2013), ProtocolVersion::V2019));
    assert!(!version_switch_needed(Some(ProtocolVersion::V2019), ProtocolVersion::V2019));
    assert!(!version_switch_needed(None, ProtocolVersion::V2019));
    assert_eq!(
        version_switch_notice(ProtocolVersion::V2019),
        format!("ℹ️ 报文头 bit14 指示协议版本为 {}，已自动切换并传递到后续发送", ProtocolVersion::V2019.name())
    );
}

#[test]
fn typed_input_bytes() {
    assert_eq!(encode_input("  7E 00,02 \n", Encoding::HEX), Some(vec![0x7E, 0x00, 0x02]));
    assert_eq!(encode_input("hello", Encoding::HEX), Some(b"hello".to_vec()));
    assert_eq!(encode_input("   ", Encoding::HEX), None);
    assert_eq!(encode_input(" abc ", Encoding::UTF8), Some(b"abc".to_vec()));
    assert_eq!(encode_input("abc", Encoding::ASCII), Some(b"abc".to_vec()));
    assert_eq!(encode_input("中", Encoding::GBK), Some(vec![0xD6, 0xD0]));
    assert_eq!(encode_input("中", Encoding::UTF8), Some("中".as_bytes().to_vec()));
}

#[test]
fn message_id_text() {
    assert_eq!(parse_msg_id_text(" 0x0200 "), 0x0200);
    assert_eq!(parse_msg_id_text("0X8100"), 0x8100);
    assert_eq!(parse_msg_id_text("0x0x12"), 0x12);
    assert_eq!(parse_msg_id_text(""), 0);
    assert_eq!(parse_msg_id_text("zz"), 0);
    assert_eq!(parse_msg_id_text("12345"), 0);
    assert_eq!(parse_msg_id_text("+1f"), 0x1F);
    assert_eq!(msg_id_text(0), "");
    assert_eq!(msg_id_text(0x0102), "0102");
    for id in [0u16, 1, 0x00ab, 0x0200, 0x8100, 0xFFFF] {
        assert_eq!(parse_msg_id_text(&msg_id_text(id)), id);
    }
}

#[test]
fn selection_after_deleting_a_connection() {
    assert_eq!(selection_after_delete(Some(2), 2), None);
    assert_eq!(selection_after_delete(Some(3), 1), Some(2));
    assert_eq!(selection_after_delete(Some(0), 1), Some(0));
    assert_eq!(selection_after_delete(None, 0), None);
}

#[test]
fn stream_summaries() {
    let hb = ParsedMessage::Heartbeat(Heartbeat);
    assert_eq!(message_summary(Some(&hb), "7E"), format!("[{}] {}", hb.name(), hb.description()));
    assert_eq!(message_summary(None, ""), "");
    assert_eq!(message_summary(None, "7E 00"), "7E 00");
    let long = "A".repeat(61);
    assert_eq!(message_summary(None, &long), format!("{}...", "A".repeat(60)));
}

#[test]
fn csv_lines() {
    assert_eq!(csv_header(), "时间,方向,编码,协议,HEX,消息ID,消息名称\n");
    let hb = ParsedMessage::Heartbeat(Heartbeat);
    assert_eq!(
        csv_row("2024-01-02 03:04:05", Direction::Send, "JT808", Some(ProtocolVersion::V2019), "7E", Some(&hb)),
        format!("2024-01-02 03:04:05,发送,JT808,2019,7E,0x0002,{}\n", hb.name())
    );
    assert_eq!(
        csv_row("t", Direction::Receive, "HEX", None, "01 02", None),
        "t,接收,HEX,,01 02,,\n"
    );
    assert_eq!(Direction::Send.storage_code(), "send");
    assert_eq!(Direction::Receive.storage_code(), "recv");
}

#[test]
fn chinese_font_names() {
    assert!(is_cjk_font_name("MSYH.TTC"));
    assert!(is_cjk_font_name("SimSun.ttc"));
    assert!(is_cjk_font_name("Deng.ttf"));
    assert!(!is_cjk_font_name("arial.ttf"));
    assert!(names_cjk_font("sourcehansans.otf"));
    assert!(!names_cjk_font("SIMHEI.TTF"));
}

#[test]
fn hex_dump_reads_back() {
    let data: Vec<u8> = (0u8..=255).collect();
    let text = hex_dump(&data);
    assert!(matches!(parse_hex_text(&text, true), HexInput::Bytes(b) if b == data));
    assert!(matches!(parse_hex_text(&text, false), HexInput::Bytes(b) if b == data));
    assert!(matches!(parse_hex_text(&hex_dump(&[]), false), HexInput::Bytes(b) if b.is_empty()));
}

#[test]
fn serial_numbers_count_up() {
    assert_eq!(tcptool::app::next_serial(0), 1);
    assert_eq!(tcptool::app::next_serial(41), 42);
    assert_eq!(tcptool::app::next_serial(0xFFFE), 0xFFFF);
}
