//! JT/T 808 message bodies, for the 2013 and 2019 protocol versions.

use vstd::prelude::*;
use vstd::utf8::{encode_utf8, is_ascii_chars, is_ascii_chars_encode_utf8};

use crate::protocol::bytes::{
    append_bytes, be16, be32, get_be16, get_be32, lemma_be16_roundtrip, lemma_be32_roundtrip,
    push_be16, push_be32, read_be16, read_be32,
};
use crate::protocol::text::{
    field_text, fit_bytes, fixed_string, gbk_decoded, gbk_encode, gbk_encoded, gbk_len_ok, owned,
    read_field_text, read_gbk_text, trim_trailing_nuls, decimal, hex4_upper, hex_byte_upper,
    push_decimal, push_hex_u16, push_hex_u8, push_str, fits_field, no_trailing_nul,
    lemma_field_roundtrip, lemma_text_roundtrip, lemma_trim_nuls_none,
};
use crate::protocol::types::{
    bcd_chars, bcd_spec, bcd_to_string, is_upper_hex_char, law_bcd_of_hex_text, string_to_bcd,
    ProtocolVersion,
};

verus! {

/// A message body: its ID, and how it is written and read for a protocol
/// version.
pub trait Jt808Message: Sized + View {
    /// The message ID.
    spec fn spec_msg_id() -> u16;

    /// Whether `encode` can write the body (text lengths the GBK codec
    /// handles).
    spec fn encodable(v: <Self as View>::V) -> bool;

    /// Whether `decode` can read body bytes (lengths the GBK codec handles,
    /// for bodies holding GBK text).
    spec fn decodable(data: Seq<u8>) -> bool;

    /// The body bytes written for a value.
    spec fn spec_encode(v: <Self as View>::V, version: ProtocolVersion) -> Seq<u8>;

    /// The value read from body bytes, or none.
    spec fn spec_decode(data: Seq<u8>, version: ProtocolVersion) -> Option<<Self as View>::V>;

    /// The error text when body bytes cannot be read.
    spec fn spec_decode_error(data: Seq<u8>, version: ProtocolVersion) -> Seq<char>;

    /// The message ID.
    fn msg_id() -> (id: u16)
        ensures
            id == Self::spec_msg_id(),
    ;

    /// Reads a body.
    fn decode(data: &[u8], version: ProtocolVersion) -> (res: Result<Self, String>)
        requires
            Self::decodable(data@),
        ensures
            match res {
                Ok(m) => Self::spec_decode(data@, version) == Some(m@),
                Err(e) => Self::spec_decode(data@, version) is None && e@
                    == Self::spec_decode_error(data@, version),
            },
    ;

    /// Writes a body.
    fn encode(&self, version: ProtocolVersion) -> (out: Vec<u8>)
        requires
            Self::encodable(self@),
        ensures
            out@ == Self::spec_encode(self@, version),
    ;
}

// ==================== 0x0001: Terminal General Response ====================

/// 0x0001: terminal general response.
#[derive(Debug, Clone)]
pub struct TerminalGeneralResponse {
    pub response_serial_no: u16,
    pub response_msg_id: u16,
    pub result: u8,
}

impl View for TerminalGeneralResponse {
    type V = TerminalGeneralResponse;

    open spec fn view(&self) -> TerminalGeneralResponse {
        *self
    }
}

impl Jt808Message for TerminalGeneralResponse {
    open spec fn spec_msg_id() -> u16 {
        0x0001
    }

    open spec fn encodable(v: TerminalGeneralResponse) -> bool {
        true
    }

    open spec fn decodable(data: Seq<u8>) -> bool {
        true
    }

    open spec fn spec_encode(v: TerminalGeneralResponse, version: ProtocolVersion) -> Seq<u8> {
        be16(v.response_serial_no) + be16(v.response_msg_id) + seq![v.result]
    }

    open spec fn spec_decode(data: Seq<u8>, version: ProtocolVersion) -> Option<TerminalGeneralResponse> {
        if data.len() < 5 {
            None
        } else {
            Some(
                TerminalGeneralResponse {
                    response_serial_no: read_be16(data, 0),
                    response_msg_id: read_be16(data, 2),
                    result: data[4],
                },
            )
        }
    }

    open spec fn spec_decode_error(data: Seq<u8>, version: ProtocolVersion) -> Seq<char> {
        "TerminalGeneralResponse: too short"@
    }

    fn msg_id() -> (id: u16) {
        0x0001
    }

    fn decode(data: &[u8], version: ProtocolVersion) -> (res: Result<Self, String>) {
        if data.len() < 5 {
            return Err(owned("TerminalGeneralResponse: too short"));
        }
        Ok(
            TerminalGeneralResponse {
                response_serial_no: get_be16(data, 0),
                response_msg_id: get_be16(data, 2),
                result: data[4],
            },
        )
    }

    fn encode(&self, version: ProtocolVersion) -> (out: Vec<u8>) {
        let mut buf: Vec<u8> = Vec::new();
        push_be16(&mut buf, self.response_serial_no);
        push_be16(&mut buf, self.response_msg_id);
        buf.push(self.result);
        assert(buf@ =~= Self::spec_encode(self@, version));
        buf
    }
}

// ==================== 0x0002: Heartbeat ====================

/// 0x0002: terminal heartbeat (empty body).
#[derive(Debug, Clone)]
pub struct Heartbeat;

impl View for Heartbeat {
    type V = Heartbeat;

    open spec fn view(&self) -> Heartbeat {
        *self
    }
}

impl Jt808Message for Heartbeat {
    open spec fn spec_msg_id() -> u16 {
        0x0002
    }

    open spec fn encodable(v: Heartbeat) -> bool {
        true
    }

    open spec fn decodable(data: Seq<u8>) -> bool {
        true
    }

    open spec fn spec_encode(v: Heartbeat, version: ProtocolVersion) -> Seq<u8> {
        Seq::empty()
    }

    open spec fn spec_decode(data: Seq<u8>, version: ProtocolVersion) -> Option<Heartbeat> {
        Some(Heartbeat)
    }

    open spec fn spec_decode_error(data: Seq<u8>, version: ProtocolVersion) -> Seq<char> {
        Seq::empty()
    }

    fn msg_id() -> (id: u16) {
        0x0002
    }

    fn decode(data: &[u8], version: ProtocolVersion) -> (res: Result<Self, String>) {
        Ok(Heartbeat)
    }

    fn encode(&self, version: ProtocolVersion) -> (out: Vec<u8>) {
        let buf: Vec<u8> = Vec::new();
        assert(buf@ =~= Self::spec_encode(self@, version));
        buf
    }
}

// ==================== 0x8001: Platform General Response ====================

/// 0x8001: platform general response.
#[derive(Debug, Clone)]
pub struct PlatformGeneralResponse {
    pub response_serial_no: u16,
    pub response_msg_id: u16,
    pub result: u8,
}

impl View for PlatformGeneralResponse {
    type V = PlatformGeneralResponse;

    open spec fn view(&self) -> PlatformGeneralResponse {
        *self
    }
}

impl Jt808Message for PlatformGeneralResponse {
    open spec fn spec_msg_id() -> u16 {
        0x8001
    }

    open spec fn encodable(v: PlatformGeneralResponse) -> bool {
        true
    }

    open spec fn decodable(data: Seq<u8>) -> bool {
        true
    }

    open spec fn spec_encode(v: PlatformGeneralResponse, version: ProtocolVersion) -> Seq<u8> {
        be16(v.response_serial_no) + be16(v.response_msg_id) + seq![v.result]
    }

    open spec fn spec_decode(data: Seq<u8>, version: ProtocolVersion) -> Option<PlatformGeneralResponse> {
        if data.len() < 5 {
            None
        } else {
            Some(
                PlatformGeneralResponse {
                    response_serial_no: read_be16(data, 0),
                    response_msg_id: read_be16(data, 2),
                    result: data[4],
                },
            )
        }
    }

    open spec fn spec_decode_error(data: Seq<u8>, version: ProtocolVersion) -> Seq<char> {
        "PlatformGeneralResponse: too short"@
    }

    fn msg_id() -> (id: u16) {
        0x8001
    }

    fn decode(data: &[u8], version: ProtocolVersion) -> (res: Result<Self, String>) {
        if data.len() < 5 {
            return Err(owned("PlatformGeneralResponse: too short"));
        }
        Ok(
            PlatformGeneralResponse {
                response_serial_no: get_be16(data, 0),
                response_msg_id: get_be16(data, 2),
                result: data[4],
            },
        )
    }

    fn encode(&self, version: ProtocolVersion) -> (out: Vec<u8>) {
        let mut buf: Vec<u8> = Vec::new();
        push_be16(&mut buf, self.response_serial_no);
        push_be16(&mut buf, self.response_msg_id);
        buf.push(self.result);
        assert(buf@ =~= Self::spec_encode(self@, version));
        buf
    }
}

// ==================== 0x8500: Vehicle Control ====================

/// 0x8500: vehicle control.
#[derive(Debug, Clone)]
pub struct VehicleControl {
    pub control_flag: u8,
}

impl View for VehicleControl {
    type V = VehicleControl;

    open spec fn view(&self) -> VehicleControl {
        *self
    }
}

impl Jt808Message for VehicleControl {
    open spec fn spec_msg_id() -> u16 {
        0x8500
    }

    open spec fn encodable(v: VehicleControl) -> bool {
        true
    }

    open spec fn decodable(data: Seq<u8>) -> bool {
        true
    }

    open spec fn spec_encode(v: VehicleControl, version: ProtocolVersion) -> Seq<u8> {
        seq![v.control_flag]
    }

    open spec fn spec_decode(data: Seq<u8>, version: ProtocolVersion) -> Option<VehicleControl> {
        if data.len() == 0 {
            None
        } else {
            Some(VehicleControl { control_flag: data[0] })
        }
    }

    open spec fn spec_decode_error(data: Seq<u8>, version: ProtocolVersion) -> Seq<char> {
        "VehicleControl: empty"@
    }

    fn msg_id() -> (id: u16) {
        0x8500
    }

    fn decode(data: &[u8], version: ProtocolVersion) -> (res: Result<Self, String>) {
        if data.len() == 0 {
            return Err(owned("VehicleControl: empty"));
        }
        Ok(VehicleControl { control_flag: data[0] })
    }

    fn encode(&self, version: ProtocolVersion) -> (out: Vec<u8>) {
        let buf: Vec<u8> = vec![self.control_flag];
        assert(buf@ =~= Self::spec_encode(self@, version));
        buf
    }
}

// ==================== 0x8300: Text Message ====================

/// 0x8300: text message (GBK text).
#[derive(Debug, Clone)]
pub struct TextMessage {
    pub flag: u8,
    pub text: String,
}

/// Plain values of a text message.
pub struct TextMessageView {
    pub flag: u8,
    pub text: Seq<char>,
}

impl View for TextMessage {
    type V = TextMessageView;

    open spec fn view(&self) -> TextMessageView {
        TextMessageView { flag: self.flag, text: self.text@ }
    }
}

impl Jt808Message for TextMessage {
    open spec fn spec_msg_id() -> u16 {
        0x8300
    }

    open spec fn encodable(v: TextMessageView) -> bool {
        gbk_len_ok(encode_utf8(v.text).len() as int)
    }

    open spec fn decodable(data: Seq<u8>) -> bool {
        gbk_len_ok(data.len() as int)
    }

    open spec fn spec_encode(v: TextMessageView, version: ProtocolVersion) -> Seq<u8> {
        seq![v.flag] + gbk_encoded(v.text)
    }

    open spec fn spec_decode(data: Seq<u8>, version: ProtocolVersion) -> Option<TextMessageView> {
        if data.len() == 0 {
            None
        } else {
            Some(
                TextMessageView {
                    flag: data[0],
                    text: trim_trailing_nuls(gbk_decoded(data.skip(1))),
                },
            )
        }
    }

    open spec fn spec_decode_error(data: Seq<u8>, version: ProtocolVersion) -> Seq<char> {
        "TextMessage: empty"@
    }

    fn msg_id() -> (id: u16) {
        0x8300
    }

    fn decode(data: &[u8], version: ProtocolVersion) -> (res: Result<Self, String>) {
        if data.len() == 0 {
            return Err(owned("TextMessage: empty"));
        }
        let flag = data[0];
        let rest = vstd::slice::slice_subrange(data, 1, data.len());
        assert(rest@ =~= data@.skip(1));
        let text = read_gbk_text(rest);
        Ok(TextMessage { flag, text })
    }

    fn encode(&self, version: ProtocolVersion) -> (out: Vec<u8>) {
        let mut buf: Vec<u8> = Vec::new();
        buf.push(self.flag);
        let t = gbk_encode(self.text.as_str());
        append_bytes(&mut buf, t.as_slice());
        assert(buf@ =~= Self::spec_encode(self@, version));
        buf
    }
}

// ==================== 0x8100: Register Response ====================

/// 0x8100: platform register response.
#[derive(Debug, Clone)]
pub struct RegisterResponse {
    pub response_serial_no: u16,
    /// 0 = success, 1 = vehicle already registered, 2 = not found, ...
    pub result: u8,
    pub auth_code: String,
}

/// Plain values of a register response.
pub struct RegisterResponseView {
    pub response_serial_no: u16,
    pub result: u8,
    pub auth_code: Seq<char>,
}

impl View for RegisterResponse {
    type V = RegisterResponseView;

    open spec fn view(&self) -> RegisterResponseView {
        RegisterResponseView {
            response_serial_no: self.response_serial_no,
            result: self.result,
            auth_code: self.auth_code@,
        }
    }
}

impl Jt808Message for RegisterResponse {
    open spec fn spec_msg_id() -> u16 {
        0x8100
    }

    open spec fn encodable(v: RegisterResponseView) -> bool {
        true
    }

    open spec fn decodable(data: Seq<u8>) -> bool {
        true
    }

    open spec fn spec_encode(v: RegisterResponseView, version: ProtocolVersion) -> Seq<u8> {
        be16(v.response_serial_no) + seq![v.result] + encode_utf8(v.auth_code)
    }

    open spec fn spec_decode(data: Seq<u8>, version: ProtocolVersion) -> Option<RegisterResponseView> {
        if data.len() < 3 {
            None
        } else {
            Some(
                RegisterResponseView {
                    response_serial_no: read_be16(data, 0),
                    result: data[2],
                    auth_code: field_text(data.skip(3)),
                },
            )
        }
    }

    open spec fn spec_decode_error(data: Seq<u8>, version: ProtocolVersion) -> Seq<char> {
        "RegisterResponse: too short"@
    }

    fn msg_id() -> (id: u16) {
        0x8100
    }

    fn decode(data: &[u8], version: ProtocolVersion) -> (res: Result<Self, String>) {
        if data.len() < 3 {
            return Err(owned("RegisterResponse: too short"));
        }
        let response_serial_no = get_be16(data, 0);
        let result = data[2];
        let rest = vstd::slice::slice_subrange(data, 3, data.len());
        assert(rest@ =~= data@.skip(3));
        let auth_code = read_field_text(rest);
        Ok(RegisterResponse { response_serial_no, result, auth_code })
    }

    fn encode(&self, version: ProtocolVersion) -> (out: Vec<u8>) {
        let mut buf: Vec<u8> = Vec::new();
        push_be16(&mut buf, self.response_serial_no);
        buf.push(self.result);
        append_bytes(&mut buf, self.auth_code.as_str().as_bytes());
        assert(buf@ =~= Self::spec_encode(self@, version));
        buf
    }
}

// ==================== 0x0100: Terminal Register ====================

/// 0x0100: terminal register.
#[derive(Debug, Clone)]
pub struct TerminalRegister {
    pub province_id: u16,
    pub city_id: u16,
    /// 2013: 5 bytes, 2019: 11 bytes
    pub manufacturer_id: String,
    /// 2013: 20 bytes, 2019: 30 bytes
    pub terminal_model: String,
    /// 2013: 7 bytes, 2019: 30 bytes
    pub terminal_id: String,
    /// 1 = blue, 2 = yellow, 3 = black
    pub color: u8,
    /// Vehicle plate (GBK)
    pub plate_number: String,
}

/// Plain values of a terminal register body.
pub struct TerminalRegisterView {
    pub province_id: u16,
    pub city_id: u16,
    pub manufacturer_id: Seq<char>,
    pub terminal_model: Seq<char>,
    pub terminal_id: Seq<char>,
    pub color: u8,
    pub plate_number: Seq<char>,
}

impl View for TerminalRegister {
    type V = TerminalRegisterView;

    open spec fn view(&self) -> TerminalRegisterView {
        TerminalRegisterView {
            province_id: self.province_id,
            city_id: self.city_id,
            manufacturer_id: self.manufacturer_id@,
            terminal_model: self.terminal_model@,
            terminal_id: self.terminal_id@,
            color: self.color,
            plate_number: self.plate_number@,
        }
    }
}

/// Fixed field lengths of a register body: (manufacturer, model, terminal id).
pub open spec fn register_lengths(version: ProtocolVersion) -> (int, int, int) {
    if version == ProtocolVersion::V2019 {
        (11, 30, 30)
    } else {
        (5, 20, 7)
    }
}

impl TerminalRegister {
    /// Fixed field lengths for a protocol version:
    /// (manufacturer_id, terminal_model, terminal_id).
    pub fn field_lengths(version: ProtocolVersion) -> (r: (usize, usize, usize))
        ensures
            (r.0 as int, r.1 as int, r.2 as int) == register_lengths(version),
    {
        match version {
            ProtocolVersion::V2019 => (11, 30, 30),
            _ => (5, 20, 7),
        }
    }
}

impl Jt808Message for TerminalRegister {
    open spec fn spec_msg_id() -> u16 {
        0x0100
    }

    open spec fn encodable(v: TerminalRegisterView) -> bool {
        gbk_len_ok(encode_utf8(v.plate_number).len() as int)
    }

    open spec fn decodable(data: Seq<u8>) -> bool {
        gbk_len_ok(data.len() as int)
    }

    open spec fn spec_encode(v: TerminalRegisterView, version: ProtocolVersion) -> Seq<u8> {
        let (m, md, t) = register_lengths(version);
        be16(v.province_id) + be16(v.city_id) + fit_bytes(encode_utf8(v.manufacturer_id), m as nat)
            + fit_bytes(encode_utf8(v.terminal_model), md as nat) + fit_bytes(
            encode_utf8(v.terminal_id),
            t as nat,
        ) + seq![v.color] + gbk_encoded(v.plate_number)
    }

    open spec fn spec_decode(data: Seq<u8>, version: ProtocolVersion) -> Option<TerminalRegisterView> {
        let (m, md, t) = register_lengths(version);
        let min_len = 4 + m + md + t + 1;
        if data.len() < min_len {
            None
        } else {
            Some(
                TerminalRegisterView {
                    province_id: read_be16(data, 0),
                    city_id: read_be16(data, 2),
                    manufacturer_id: field_text(data.subrange(4, 4 + m)),
                    terminal_model: field_text(data.subrange(4 + m, 4 + m + md)),
                    terminal_id: field_text(data.subrange(4 + m + md, 4 + m + md + t)),
                    color: data[4 + m + md + t],
                    plate_number: trim_trailing_nuls(gbk_decoded(data.skip(min_len))),
                },
            )
        }
    }

    open spec fn spec_decode_error(data: Seq<u8>, version: ProtocolVersion) -> Seq<char> {
        if version == ProtocolVersion::V2019 {
            "TerminalRegister: too short (need 76 bytes)"@
        } else {
            "TerminalRegister: too short (need 37 bytes)"@
        }
    }

    fn msg_id() -> (id: u16) {
        0x0100
    }

    fn decode(data: &[u8], version: ProtocolVersion) -> (res: Result<Self, String>) {
        let (mfg_len, model_len, tid_len) = Self::field_lengths(version);
        let min_len = 4 + mfg_len + model_len + tid_len + 1;
        if data.len() < min_len {
            if version == ProtocolVersion::V2019 {
                return Err(owned("TerminalRegister: too short (need 76 bytes)"));
            } else {
                return Err(owned("TerminalRegister: too short (need 37 bytes)"));
            }
        }
        let province_id = get_be16(data, 0);
        let city_id = get_be16(data, 2);
        let mut pos: usize = 4;
        let manufacturer_id = read_field_text(vstd::slice::slice_subrange(data, pos, pos + mfg_len));
        pos = pos + mfg_len;
        let terminal_model = read_field_text(vstd::slice::slice_subrange(data, pos, pos + model_len));
        pos = pos + model_len;
        let terminal_id = read_field_text(vstd::slice::slice_subrange(data, pos, pos + tid_len));
        pos = pos + tid_len;
        let color = data[pos];
        pos = pos + 1;
        let rest = vstd::slice::slice_subrange(data, pos, data.len());
        assert(rest@ =~= data@.skip(pos as int));
        let plate_number = read_gbk_text(rest);
        Ok(
            TerminalRegister {
                province_id,
                city_id,
                manufacturer_id,
                terminal_model,
                terminal_id,
                color,
                plate_number,
            },
        )
    }

    fn encode(&self, version: ProtocolVersion) -> (out: Vec<u8>) {
        let (mfg_len, model_len, tid_len) = Self::field_lengths(version);
        let mut buf: Vec<u8> = Vec::new();
        push_be16(&mut buf, self.province_id);
        push_be16(&mut buf, self.city_id);
        let mf = fixed_string(self.manufacturer_id.as_str(), mfg_len);
        append_bytes(&mut buf, mf.as_slice());
        let tm = fixed_string(self.terminal_model.as_str(), model_len);
        append_bytes(&mut buf, tm.as_slice());
        let tid = fixed_string(self.terminal_id.as_str(), tid_len);
        append_bytes(&mut buf, tid.as_slice());
        buf.push(self.color);
        let plate = gbk_encode(self.plate_number.as_str());
        append_bytes(&mut buf, plate.as_slice());
        assert(buf@ =~= Self::spec_encode(self@, version));
        buf
    }
}

// ==================== 0x0102: Terminal Auth ====================

/// 0x0102: terminal authentication.
#[derive(Debug, Clone)]
pub struct TerminalAuth {
    pub auth_code: String,
    /// 2019 only: terminal IMEI, 15 bytes
    pub imei: String,
    /// 2019 only: software version, 20 bytes
    pub software_version: String,
}

/// Plain values of an authentication body.
pub struct TerminalAuthView {
    pub auth_code: Seq<char>,
    pub imei: Seq<char>,
    pub software_version: Seq<char>,
}

impl View for TerminalAuth {
    type V = TerminalAuthView;

    open spec fn view(&self) -> TerminalAuthView {
        TerminalAuthView {
            auth_code: self.auth_code@,
            imei: self.imei@,
            software_version: self.software_version@,
        }
    }
}

/// Reads the 2019 authentication body: length-prefixed code, then IMEI
/// (15 bytes) and software version (20 bytes) where present.
pub open spec fn auth_2019_decode(data: Seq<u8>) -> TerminalAuthView {
    let code_end = if 1 + data[0] < data.len() { 1 + data[0] } else { data.len() as int };
    let has_imei = data.len() >= code_end + 15;
    let pos = if has_imei { code_end + 15 } else { code_end };
    TerminalAuthView {
        auth_code: field_text(data.subrange(1, code_end)),
        imei: if has_imei { field_text(data.subrange(code_end, code_end + 15)) } else { Seq::empty() },
        software_version: if data.len() >= pos + 20 {
            field_text(data.subrange(pos, pos + 20))
        } else {
            Seq::empty()
        },
    }
}

impl Jt808Message for TerminalAuth {
    open spec fn spec_msg_id() -> u16 {
        0x0102
    }

    open spec fn encodable(v: TerminalAuthView) -> bool {
        true
    }

    open spec fn decodable(data: Seq<u8>) -> bool {
        true
    }

    open spec fn spec_encode(v: TerminalAuthView, version: ProtocolVersion) -> Seq<u8> {
        let code = encode_utf8(v.auth_code);
        if version == ProtocolVersion::V2019 {
            seq![(code.len() % 256) as u8] + code + fit_bytes(encode_utf8(v.imei), 15) + fit_bytes(
                encode_utf8(v.software_version),
                20,
            )
        } else {
            code
        }
    }

    open spec fn spec_decode(data: Seq<u8>, version: ProtocolVersion) -> Option<TerminalAuthView> {
        if version == ProtocolVersion::V2019 {
            if data.len() == 0 {
                None
            } else {
                Some(auth_2019_decode(data))
            }
        } else {
            Some(
                TerminalAuthView {
                    auth_code: field_text(data),
                    imei: Seq::empty(),
                    software_version: Seq::empty(),
                },
            )
        }
    }

    open spec fn spec_decode_error(data: Seq<u8>, version: ProtocolVersion) -> Seq<char> {
        "TerminalAuth: too short"@
    }

    fn msg_id() -> (id: u16) {
        0x0102
    }

    fn decode(data: &[u8], version: ProtocolVersion) -> (res: Result<Self, String>) {
        match version {
            ProtocolVersion::V2019 => {
                if data.len() == 0 {
                    return Err(owned("TerminalAuth: too short"));
                }
                let len = data[0] as usize;
                let code_end = if 1 + len < data.len() {
                    1 + len
                } else {
                    data.len()
                };
                let auth_code = read_field_text(vstd::slice::slice_subrange(data, 1, code_end));
                let mut pos = code_end;
                let imei = if data.len() >= pos + 15 {
                    let s = read_field_text(vstd::slice::slice_subrange(data, pos, pos + 15));
                    pos = pos + 15;
                    s
                } else {
                    String::new()
                };
                let software_version = if data.len() >= pos + 20 {
                    read_field_text(vstd::slice::slice_subrange(data, pos, pos + 20))
                } else {
                    String::new()
                };
                let r = TerminalAuth { auth_code, imei, software_version };
                assert(r@ =~= auth_2019_decode(data@));
                Ok(r)
            },
            ProtocolVersion::V2013 | ProtocolVersion::GenericTcp => {
                let auth_code = read_field_text(data);
                Ok(TerminalAuth { auth_code, imei: String::new(), software_version: String::new() })
            },
        }
    }

    fn encode(&self, version: ProtocolVersion) -> (out: Vec<u8>) {
        match version {
            ProtocolVersion::V2019 => {
                let code = self.auth_code.as_str().as_bytes();
                let mut buf: Vec<u8> = Vec::new();
                buf.push((code.len() % 256) as u8);
                append_bytes(&mut buf, code);
                let imei = fixed_string(self.imei.as_str(), 15);
                append_bytes(&mut buf, imei.as_slice());
                let sw = fixed_string(self.software_version.as_str(), 20);
                append_bytes(&mut buf, sw.as_slice());
                assert(buf@ =~= Self::spec_encode(self@, version));
                buf
            },
            ProtocolVersion::V2013 | ProtocolVersion::GenericTcp => {
                vstd::slice::slice_to_vec(self.auth_code.as_str().as_bytes())
            },
        }
    }
}

// ==================== 0x0200: Location Report ====================

/// An additional information item of a location report.
#[derive(Debug, Clone)]
pub struct ExtraItem {
    pub id: u8,
    pub value: Vec<u8>,
}

impl View for ExtraItem {
    type V = (u8, Seq<u8>);

    open spec fn view(&self) -> (u8, Seq<u8>) {
        (self.id, self.value@)
    }
}

/// 0x0200: location report.
#[derive(Debug, Clone)]
pub struct LocationReport {
    pub alarm_flags: u32,
    pub status: u32,
    /// degrees * 10^6
    pub latitude: u32,
    /// degrees * 10^6
    pub longitude: u32,
    /// meters
    pub altitude: u16,
    /// 0.1 km/h
    pub speed: u16,
    /// 0-359 degrees
    pub direction: u16,
    /// BCD 6 bytes: YYMMDDHHMMSS
    pub timestamp: String,
    pub extra_items: Vec<ExtraItem>,
}

/// Plain values of a location report.
pub struct LocationReportView {
    pub alarm_flags: u32,
    pub status: u32,
    pub latitude: u32,
    pub longitude: u32,
    pub altitude: u16,
    pub speed: u16,
    pub direction: u16,
    pub timestamp: Seq<char>,
    pub extra_items: Seq<(u8, Seq<u8>)>,
}

impl View for LocationReport {
    type V = LocationReportView;

    open spec fn view(&self) -> LocationReportView {
        LocationReportView {
            alarm_flags: self.alarm_flags,
            status: self.status,
            latitude: self.latitude,
            longitude: self.longitude,
            altitude: self.altitude,
            speed: self.speed,
            direction: self.direction,
            timestamp: self.timestamp@,
            extra_items: self.extra_items@.map_values(|x: ExtraItem| x@),
        }
    }
}

/// The additional items read from `pos` on: id, length, value, while more
/// than two bytes are left and the value fits.
pub open spec fn parse_extra_items(d: Seq<u8>, pos: int) -> Seq<(u8, Seq<u8>)>
    decreases d.len() - pos,
{
    if pos >= 0 && pos + 2 < d.len() {
        let l = d[pos + 1] as int;
        if pos + 2 + l > d.len() {
            Seq::empty()
        } else {
            seq![(d[pos], d.subrange(pos + 2, pos + 2 + l))] + parse_extra_items(d, pos + 2 + l)
        }
    } else {
        Seq::empty()
    }
}

/// The bytes of additional items: id, length (mod 256), value.
pub open spec fn extra_items_bytes(items: Seq<(u8, Seq<u8>)>) -> Seq<u8>
    decreases items.len(),
{
    if items.len() == 0 {
        Seq::empty()
    } else {
        let it = items.last();
        extra_items_bytes(items.drop_last()) + seq![it.0, (it.1.len() % 256) as u8] + it.1
    }
}

impl Jt808Message for LocationReport {
    open spec fn spec_msg_id() -> u16 {
        0x0200
    }

    open spec fn encodable(v: LocationReportView) -> bool {
        true
    }

    open spec fn decodable(data: Seq<u8>) -> bool {
        true
    }

    open spec fn spec_encode(v: LocationReportView, version: ProtocolVersion) -> Seq<u8> {
        be32(v.alarm_flags) + be32(v.status) + be32(v.latitude) + be32(v.longitude) + be16(
            v.altitude,
        ) + be16(v.speed) + be16(v.direction) + bcd_spec(encode_utf8(v.timestamp), 6)
            + extra_items_bytes(v.extra_items)
    }

    open spec fn spec_decode(data: Seq<u8>, version: ProtocolVersion) -> Option<LocationReportView> {
        if data.len() < 28 {
            None
        } else {
            Some(
                LocationReportView {
                    alarm_flags: read_be32(data, 0),
                    status: read_be32(data, 4),
                    latitude: read_be32(data, 8),
                    longitude: read_be32(data, 12),
                    altitude: read_be16(data, 16),
                    speed: read_be16(data, 18),
                    direction: read_be16(data, 20),
                    timestamp: bcd_chars(data.subrange(22, 28)),
                    extra_items: parse_extra_items(data, 28),
                },
            )
        }
    }

    open spec fn spec_decode_error(data: Seq<u8>, version: ProtocolVersion) -> Seq<char> {
        "LocationReport: too short"@
    }

    fn msg_id() -> (id: u16) {
        0x0200
    }

    fn decode(data: &[u8], version: ProtocolVersion) -> (res: Result<Self, String>) {
        if data.len() < 28 {
            return Err(owned("LocationReport: too short"));
        }
        let alarm_flags = get_be32(data, 0);
        let status = get_be32(data, 4);
        let latitude = get_be32(data, 8);
        let longitude = get_be32(data, 12);
        let altitude = get_be16(data, 16);
        let speed = get_be16(data, 18);
        let direction = get_be16(data, 20);
        let timestamp = bcd_to_string(vstd::slice::slice_subrange(data, 22, 28));
        let mut extra_items: Vec<ExtraItem> = Vec::new();
        let mut pos: usize = 28;
        proof {
            assert(extra_items@.map_values(|x: ExtraItem| x@) + parse_extra_items(data@, 28)
                =~= parse_extra_items(data@, 28));
        }
        while data.len() - pos > 2
            invariant
                28 <= pos <= data@.len(),
                extra_items@.map_values(|x: ExtraItem| x@) + parse_extra_items(data@, pos as int)
                    == parse_extra_items(data@, 28),
            ensures
                extra_items@.map_values(|x: ExtraItem| x@) =~= parse_extra_items(data@, 28),
            decreases data.len() - pos,
        {
            let item_id = data[pos];
            let item_len = data[pos + 1] as usize;
            let ghost old_items = extra_items@;
            let ghost at = pos as int;
            let start = pos + 2;
            if item_len > data.len() - start {
                proof {
                    assert(parse_extra_items(data@, pos as int) =~= Seq::<(u8, Seq<u8>)>::empty());
                    assert(extra_items@.map_values(|x: ExtraItem| x@) + Seq::<(u8, Seq<u8>)>::empty()
                        =~= extra_items@.map_values(|x: ExtraItem| x@));
                }
                break;
            }
            let value = vstd::slice::slice_to_vec(
                vstd::slice::slice_subrange(data, start, start + item_len),
            );
            extra_items.push(ExtraItem { id: item_id, value });
            pos = start + item_len;
            proof {
                let tail = parse_extra_items(data@, pos as int);
                let here = (item_id, data@.subrange(at + 2, at + 2 + item_len));
                assert(parse_extra_items(data@, at) == seq![here] + tail);
                assert(extra_items@.map_values(|x: ExtraItem| x@) =~= old_items.map_values(
                    |x: ExtraItem| x@,
                ).push(here));
                assert(extra_items@.map_values(|x: ExtraItem| x@) + tail =~= old_items.map_values(
                    |x: ExtraItem| x@,
                ) + (seq![here] + tail));
            }
        }
        let r = LocationReport {
            alarm_flags,
            status,
            latitude,
            longitude,
            altitude,
            speed,
            direction,
            timestamp,
            extra_items,
        };
        Ok(r)
    }

    fn encode(&self, version: ProtocolVersion) -> (out: Vec<u8>) {
        let mut buf: Vec<u8> = Vec::new();
        push_be32(&mut buf, self.alarm_flags);
        push_be32(&mut buf, self.status);
        push_be32(&mut buf, self.latitude);
        push_be32(&mut buf, self.longitude);
        push_be16(&mut buf, self.altitude);
        push_be16(&mut buf, self.speed);
        push_be16(&mut buf, self.direction);
        let ts = string_to_bcd(self.timestamp.as_str(), 6);
        append_bytes(&mut buf, ts.as_slice());
        let ghost head = buf@;
        let mut i: usize = 0;
        while i < self.extra_items.len()
            invariant
                i <= self.extra_items@.len(),
                buf@ == head + extra_items_bytes(
                    self.extra_items@.map_values(|x: ExtraItem| x@).take(i as int),
                ),
            decreases self.extra_items.len() - i,
        {
            let item = &self.extra_items[i];
            buf.push(item.id);
            buf.push((item.value.len() % 256) as u8);
            append_bytes(&mut buf, item.value.as_slice());
            proof {
                let all = self.extra_items@.map_values(|x: ExtraItem| x@);
                assert(all.take(i + 1).drop_last() =~= all.take(i as int));
                assert(all.take(i + 1).last() == (item.id, item.value@));
            }
            i = i + 1;
            assert(buf@ =~= head + extra_items_bytes(
                self.extra_items@.map_values(|x: ExtraItem| x@).take(i as int),
            ));
        }
        assert(self.extra_items@.map_values(|x: ExtraItem| x@).take(i as int)
            =~= self.extra_items@.map_values(|x: ExtraItem| x@));
        assert(buf@ =~= Self::spec_encode(self@, version));
        buf
    }
}

// ==================== 0x8103: Parameter Set ====================

/// One parameter of a parameter-set body.
#[derive(Debug, Clone)]
pub struct ParameterItem {
    pub param_id: u32,
    pub param_value: Vec<u8>,
}

impl View for ParameterItem {
    type V = (u32, Seq<u8>);

    open spec fn view(&self) -> (u32, Seq<u8>) {
        (self.param_id, self.param_value@)
    }
}

/// 0x8103: set terminal parameters.
#[derive(Debug, Clone)]
pub struct ParameterSet {
    pub total: u8,
    pub items: Vec<ParameterItem>,
}

/// Plain values of a parameter-set body.
pub struct ParameterSetView {
    pub total: u8,
    pub items: Seq<(u32, Seq<u8>)>,
}

impl View for ParameterSet {
    type V = ParameterSetView;

    open spec fn view(&self) -> ParameterSetView {
        ParameterSetView { total: self.total, items: self.items@.map_values(|x: ParameterItem| x@) }
    }
}

/// The parameters read from `pos` on: id (4 bytes), length, value, while a
/// whole id and length are left and the value fits.
pub open spec fn parse_params(d: Seq<u8>, pos: int) -> Seq<(u32, Seq<u8>)>
    decreases d.len() - pos,
{
    if pos >= 0 && pos + 5 <= d.len() {
        let l = d[pos + 4] as int;
        if pos + 5 + l > d.len() {
            Seq::empty()
        } else {
            seq![(read_be32(d, pos), d.subrange(pos + 5, pos + 5 + l))] + parse_params(d, pos + 5 + l)
        }
    } else {
        Seq::empty()
    }
}

/// The bytes of parameters: id, length (mod 256), value.
pub open spec fn params_bytes(items: Seq<(u32, Seq<u8>)>) -> Seq<u8>
    decreases items.len(),
{
    if items.len() == 0 {
        Seq::empty()
    } else {
        let it = items.last();
        params_bytes(items.drop_last()) + be32(it.0) + seq![(it.1.len() % 256) as u8] + it.1
    }
}

impl Jt808Message for ParameterSet {
    open spec fn spec_msg_id() -> u16 {
        0x8103
    }

    open spec fn encodable(v: ParameterSetView) -> bool {
        true
    }

    open spec fn decodable(data: Seq<u8>) -> bool {
        true
    }

    open spec fn spec_encode(v: ParameterSetView, version: ProtocolVersion) -> Seq<u8> {
        seq![v.total] + params_bytes(v.items)
    }

    open spec fn spec_decode(data: Seq<u8>, version: ProtocolVersion) -> Option<ParameterSetView> {
        if data.len() == 0 {
            None
        } else {
            Some(ParameterSetView { total: data[0], items: parse_params(data, 1) })
        }
    }

    open spec fn spec_decode_error(data: Seq<u8>, version: ProtocolVersion) -> Seq<char> {
        "ParameterSet: empty"@
    }

    fn msg_id() -> (id: u16) {
        0x8103
    }

    fn decode(data: &[u8], version: ProtocolVersion) -> (res: Result<Self, String>) {
        if data.len() == 0 {
            return Err(owned("ParameterSet: empty"));
        }
        let total = data[0];
        let mut items: Vec<ParameterItem> = Vec::new();
        let mut pos: usize = 1;
        proof {
            assert(items@.map_values(|x: ParameterItem| x@) + parse_params(data@, 1) =~= parse_params(
                data@,
                1,
            ));
        }
        while data.len() - pos >= 5
            invariant
                1 <= pos <= data@.len(),
                items@.map_values(|x: ParameterItem| x@) + parse_params(data@, pos as int)
                    == parse_params(data@, 1),
            ensures
                items@.map_values(|x: ParameterItem| x@) =~= parse_params(data@, 1),
            decreases data.len() - pos,
        {
            let param_id = get_be32(data, pos);
            let param_len = data[pos + 4] as usize;
            let ghost old_items = items@;
            let ghost at = pos as int;
            let start = pos + 5;
            if param_len > data.len() - start {
                proof {
                    assert(parse_params(data@, pos as int) =~= Seq::<(u32, Seq<u8>)>::empty());
                    assert(items@.map_values(|x: ParameterItem| x@) + Seq::<(u32, Seq<u8>)>::empty()
                        =~= items@.map_values(|x: ParameterItem| x@));
                }
                break;
            }
            let param_value = vstd::slice::slice_to_vec(
                vstd::slice::slice_subrange(data, start, start + param_len),
            );
            items.push(ParameterItem { param_id, param_value });
            pos = start + param_len;
            proof {
                let tail = parse_params(data@, pos as int);
                let here = (param_id, data@.subrange(at + 5, at + 5 + param_len));
                assert(parse_params(data@, at) == seq![here] + tail);
                assert(items@.map_values(|x: ParameterItem| x@) =~= old_items.map_values(
                    |x: ParameterItem| x@,
                ).push(here));
                assert(items@.map_values(|x: ParameterItem| x@) + tail =~= old_items.map_values(
                    |x: ParameterItem| x@,
                ) + (seq![here] + tail));
            }
        }
        Ok(ParameterSet { total, items })
    }

    fn encode(&self, version: ProtocolVersion) -> (out: Vec<u8>) {
        let mut buf: Vec<u8> = Vec::new();
        buf.push(self.total);
        let ghost head = buf@;
        let mut i: usize = 0;
        while i < self.items.len()
            invariant
                i <= self.items@.len(),
                buf@ == head + params_bytes(
                    self.items@.map_values(|x: ParameterItem| x@).take(i as int),
                ),
            decreases self.items.len() - i,
        {
            let item = &self.items[i];
            push_be32(&mut buf, item.param_id);
            buf.push((item.param_value.len() % 256) as u8);
            append_bytes(&mut buf, item.param_value.as_slice());
            proof {
                let all = self.items@.map_values(|x: ParameterItem| x@);
                assert(all.take(i + 1).drop_last() =~= all.take(i as int));
                assert(all.take(i + 1).last() == (item.param_id, item.param_value@));
            }
            i = i + 1;
            assert(buf@ =~= head + params_bytes(
                self.items@.map_values(|x: ParameterItem| x@).take(i as int),
            ));
        }
        assert(self.items@.map_values(|x: ParameterItem| x@).take(i as int)
            =~= self.items@.map_values(|x: ParameterItem| x@));
        assert(buf@ =~= Self::spec_encode(self@, version));
        buf
    }
}

// ==================== 0x0107: Query Terminal Attribute Response ====================

/// 0x0107: terminal attributes.
#[derive(Debug, Clone)]
pub struct QueryTerminalAttrResponse {
    pub terminal_type: u16,
    /// 5 bytes
    pub manufacturer_id: String,
    /// 2013: 20 bytes, 2019: 30 bytes
    pub terminal_model: String,
    /// 2013: 7 bytes, 2019: 30 bytes
    pub terminal_id: String,
    /// BCD, 10 bytes
    pub iccid: String,
    pub hardware_version: String,
    pub firmware_version: String,
    pub gnss_attr: u8,
    pub comm_attr: u8,
}

/// Plain values of a terminal attribute body.
pub struct QueryTerminalAttrView {
    pub terminal_type: u16,
    pub manufacturer_id: Seq<char>,
    pub terminal_model: Seq<char>,
    pub terminal_id: Seq<char>,
    pub iccid: Seq<char>,
    pub hardware_version: Seq<char>,
    pub firmware_version: Seq<char>,
    pub gnss_attr: u8,
    pub comm_attr: u8,
}

impl View for QueryTerminalAttrResponse {
    type V = QueryTerminalAttrView;

    open spec fn view(&self) -> QueryTerminalAttrView {
        QueryTerminalAttrView {
            terminal_type: self.terminal_type,
            manufacturer_id: self.manufacturer_id@,
            terminal_model: self.terminal_model@,
            terminal_id: self.terminal_id@,
            iccid: self.iccid@,
            hardware_version: self.hardware_version@,
            firmware_version: self.firmware_version@,
            gnss_attr: self.gnss_attr,
            comm_attr: self.comm_attr,
        }
    }
}

/// Field lengths of an attribute body: (terminal model, terminal id).
pub open spec fn attr_lengths(version: ProtocolVersion) -> (int, int) {
    if version == ProtocolVersion::V2019 {
        (30, 30)
    } else {
        (20, 7)
    }
}

/// A length-prefixed string at `pos` and the position after it: nothing
/// (position unchanged) at the end of the data, nothing (past the length
/// byte) when the string does not fit.
pub open spec fn len_prefixed(d: Seq<u8>, pos: int) -> (Seq<char>, int) {
    if pos >= d.len() {
        (Seq::empty(), pos)
    } else {
        let l = d[pos] as int;
        if pos + 1 + l > d.len() {
            (Seq::empty(), pos + 1)
        } else {
            (field_text(d.subrange(pos + 1, pos + 1 + l)), pos + 1 + l)
        }
    }
}

/// Reads a length-prefixed string (BYTE length + content).
fn read_len_prefixed_string(data: &[u8], pos: &mut usize) -> (s: String)
    requires
        *old(pos) <= data@.len(),
    ensures
        (s@, *final(pos) as int) == len_prefixed(data@, *old(pos) as int),
        *final(pos) <= data@.len(),
{
    if *pos >= data.len() {
        return String::new();
    }
    let len = data[*pos] as usize;
    *pos = *pos + 1;
    if len > data.len() - *pos {
        return String::new();
    }
    let s = read_field_text(vstd::slice::slice_subrange(data, *pos, *pos + len));
    *pos = *pos + len;
    s
}

/// A length byte (mod 256) followed by the UTF-8 bytes of a text.
pub open spec fn len_prefixed_bytes(t: Seq<char>) -> Seq<u8> {
    seq![(encode_utf8(t).len() % 256) as u8] + encode_utf8(t)
}

/// Reads the attribute body at and after the ICCID.
pub open spec fn attr_decode(data: Seq<u8>, version: ProtocolVersion) -> QueryTerminalAttrView {
    let (ml, tl) = attr_lengths(version);
    let p0 = 7 + ml + tl;
    let p1 = p0 + 10;
    let (hw, p2) = len_prefixed(data, p1);
    let (fw, p3) = len_prefixed(data, p2);
    let p4 = if p3 < data.len() { p3 + 1 } else { p3 };
    QueryTerminalAttrView {
        terminal_type: read_be16(data, 0),
        manufacturer_id: field_text(data.subrange(2, 7)),
        terminal_model: field_text(data.subrange(7, 7 + ml)),
        terminal_id: field_text(data.subrange(7 + ml, p0)),
        iccid: bcd_chars(data.subrange(p0, p1)),
        hardware_version: hw,
        firmware_version: fw,
        gnss_attr: if p3 < data.len() { data[p3] } else { 0 },
        comm_attr: if p4 < data.len() { data[p4] } else { 0 },
    }
}

impl QueryTerminalAttrResponse {
    /// (terminal_model length, terminal_id length) for a protocol version.
    pub fn field_lengths(version: ProtocolVersion) -> (r: (usize, usize))
        ensures
            (r.0 as int, r.1 as int) == attr_lengths(version),
    {
        match version {
            ProtocolVersion::V2019 => (30, 30),
            _ => (20, 7),
        }
    }
}

impl Jt808Message for QueryTerminalAttrResponse {
    open spec fn spec_msg_id() -> u16 {
        0x0107
    }

    open spec fn encodable(v: QueryTerminalAttrView) -> bool {
        true
    }

    open spec fn decodable(data: Seq<u8>) -> bool {
        true
    }

    open spec fn spec_encode(v: QueryTerminalAttrView, version: ProtocolVersion) -> Seq<u8> {
        let (ml, tl) = attr_lengths(version);
        be16(v.terminal_type) + fit_bytes(encode_utf8(v.manufacturer_id), 5) + fit_bytes(
            encode_utf8(v.terminal_model),
            ml as nat,
        ) + fit_bytes(encode_utf8(v.terminal_id), tl as nat) + bcd_spec(encode_utf8(v.iccid), 10)
            + len_prefixed_bytes(v.hardware_version) + len_prefixed_bytes(v.firmware_version) + seq![
            v.gnss_attr,
            v.comm_attr,
        ]
    }

    open spec fn spec_decode(data: Seq<u8>, version: ProtocolVersion) -> Option<QueryTerminalAttrView> {
        let (ml, tl) = attr_lengths(version);
        if data.len() < 2 + 5 + ml + tl + 10 {
            None
        } else {
            Some(attr_decode(data, version))
        }
    }

    open spec fn spec_decode_error(data: Seq<u8>, version: ProtocolVersion) -> Seq<char> {
        "QueryTerminalAttrResponse: too short"@
    }

    fn msg_id() -> (id: u16) {
        0x0107
    }

    fn decode(data: &[u8], version: ProtocolVersion) -> (res: Result<Self, String>) {
        let (model_len, tid_len) = Self::field_lengths(version);
        let fixed = 2 + 5 + model_len + tid_len + 10;
        if data.len() < fixed {
            return Err(owned("QueryTerminalAttrResponse: too short"));
        }
        let terminal_type = get_be16(data, 0);
        let manufacturer_id = read_field_text(vstd::slice::slice_subrange(data, 2, 7));
        let mut pos: usize = 7;
        let terminal_model = read_field_text(vstd::slice::slice_subrange(data, pos, pos + model_len));
        pos = pos + model_len;
        let terminal_id = read_field_text(vstd::slice::slice_subrange(data, pos, pos + tid_len));
        pos = pos + tid_len;
        let iccid = bcd_to_string(vstd::slice::slice_subrange(data, pos, pos + 10));
        pos = pos + 10;
        let hardware_version = read_len_prefixed_string(data, &mut pos);
        let firmware_version = read_len_prefixed_string(data, &mut pos);
        let gnss_attr = if pos < data.len() {
            let v = data[pos];
            pos = pos + 1;
            v
        } else {
            0
        };
        let comm_attr = if pos < data.len() {
            data[pos]
        } else {
            0
        };
        let r = QueryTerminalAttrResponse {
            terminal_type,
            manufacturer_id,
            terminal_model,
            terminal_id,
            iccid,
            hardware_version,
            firmware_version,
            gnss_attr,
            comm_attr,
        };
        assert(r@ =~= attr_decode(data@, version));
        Ok(r)
    }

    fn encode(&self, version: ProtocolVersion) -> (out: Vec<u8>) {
        let (model_len, tid_len) = Self::field_lengths(version);
        let mut buf: Vec<u8> = Vec::new();
        push_be16(&mut buf, self.terminal_type);
        let mf = fixed_string(self.manufacturer_id.as_str(), 5);
        append_bytes(&mut buf, mf.as_slice());
        let tm = fixed_string(self.terminal_model.as_str(), model_len);
        append_bytes(&mut buf, tm.as_slice());
        let tid = fixed_string(self.terminal_id.as_str(), tid_len);
        append_bytes(&mut buf, tid.as_slice());
        let iccid = string_to_bcd(self.iccid.as_str(), 10);
        append_bytes(&mut buf, iccid.as_slice());
        let hw = self.hardware_version.as_str().as_bytes();
        buf.push((hw.len() % 256) as u8);
        append_bytes(&mut buf, hw);
        let fw = self.firmware_version.as_str().as_bytes();
        buf.push((fw.len() % 256) as u8);
        append_bytes(&mut buf, fw);
        buf.push(self.gnss_attr);
        buf.push(self.comm_attr);
        assert(buf@ =~= Self::spec_encode(self@, version));
        buf
    }
}

// ==================== Message dispatch ====================

/// A parsed message body with its type.
#[derive(Debug, Clone)]
pub enum ParsedMessage {
    TerminalGeneralResponse(TerminalGeneralResponse),
    Heartbeat(Heartbeat),
    TerminalRegister(TerminalRegister),
    TerminalAuth(TerminalAuth),
    QueryTerminalAttrResponse(QueryTerminalAttrResponse),
    RegisterResponse(RegisterResponse),
    PlatformGeneralResponse(PlatformGeneralResponse),
    LocationReport(LocationReport),
    ParameterSet(ParameterSet),
    TextMessage(TextMessage),
    VehicleControl(VehicleControl),
    Unknown { msg_id: u16, body: Vec<u8> },
}

/// Plain values of a parsed message.
pub enum ParsedMessageView {
    TerminalGeneralResponse(TerminalGeneralResponse),
    Heartbeat(Heartbeat),
    TerminalRegister(TerminalRegisterView),
    TerminalAuth(TerminalAuthView),
    QueryTerminalAttrResponse(QueryTerminalAttrView),
    RegisterResponse(RegisterResponseView),
    PlatformGeneralResponse(PlatformGeneralResponse),
    LocationReport(LocationReportView),
    ParameterSet(ParameterSetView),
    TextMessage(TextMessageView),
    VehicleControl(VehicleControl),
    Unknown { msg_id: u16, body: Seq<u8> },
}

impl View for ParsedMessage {
    type V = ParsedMessageView;

    open spec fn view(&self) -> ParsedMessageView {
        match self {
            ParsedMessage::TerminalGeneralResponse(m) => ParsedMessageView::TerminalGeneralResponse(m@),
            ParsedMessage::Heartbeat(m) => ParsedMessageView::Heartbeat(m@),
            ParsedMessage::TerminalRegister(m) => ParsedMessageView::TerminalRegister(m@),
            ParsedMessage::TerminalAuth(m) => ParsedMessageView::TerminalAuth(m@),
            ParsedMessage::QueryTerminalAttrResponse(m) => ParsedMessageView::QueryTerminalAttrResponse(m@),
            ParsedMessage::RegisterResponse(m) => ParsedMessageView::RegisterResponse(m@),
            ParsedMessage::PlatformGeneralResponse(m) => ParsedMessageView::PlatformGeneralResponse(m@),
            ParsedMessage::LocationReport(m) => ParsedMessageView::LocationReport(m@),
            ParsedMessage::ParameterSet(m) => ParsedMessageView::ParameterSet(m@),
            ParsedMessage::TextMessage(m) => ParsedMessageView::TextMessage(m@),
            ParsedMessage::VehicleControl(m) => ParsedMessageView::VehicleControl(m@),
            ParsedMessage::Unknown { msg_id, body } => ParsedMessageView::Unknown {
                msg_id: *msg_id,
                body: body@,
            },
        }
    }
}

/// The message ID of a parsed message.
pub open spec fn parsed_msg_id(m: ParsedMessageView) -> u16 {
    match m {
        ParsedMessageView::TerminalGeneralResponse(_) => 0x0001,
        ParsedMessageView::Heartbeat(_) => 0x0002,
        ParsedMessageView::TerminalRegister(_) => 0x0100,
        ParsedMessageView::TerminalAuth(_) => 0x0102,
        ParsedMessageView::QueryTerminalAttrResponse(_) => 0x0107,
        ParsedMessageView::RegisterResponse(_) => 0x8100,
        ParsedMessageView::PlatformGeneralResponse(_) => 0x8001,
        ParsedMessageView::LocationReport(_) => 0x0200,
        ParsedMessageView::ParameterSet(_) => 0x8103,
        ParsedMessageView::TextMessage(_) => 0x8300,
        ParsedMessageView::VehicleControl(_) => 0x8500,
        ParsedMessageView::Unknown { msg_id, .. } => msg_id,
    }
}

/// The display name of a parsed message.
pub open spec fn parsed_name(m: ParsedMessageView) -> Seq<char> {
    match m {
        ParsedMessageView::TerminalGeneralResponse(_) => "终端通用应答"@,
        ParsedMessageView::Heartbeat(_) => "终端心跳"@,
        ParsedMessageView::TerminalRegister(_) => "终端注册"@,
        ParsedMessageView::TerminalAuth(_) => "终端鉴权"@,
        ParsedMessageView::QueryTerminalAttrResponse(_) => "查询终端属性应答"@,
        ParsedMessageView::RegisterResponse(_) => "平台注册应答"@,
        ParsedMessageView::PlatformGeneralResponse(_) => "平台通用应答"@,
        ParsedMessageView::LocationReport(_) => "位置信息汇报"@,
        ParsedMessageView::ParameterSet(_) => "参数设置"@,
        ParsedMessageView::TextMessage(_) => "文本信息下发"@,
        ParsedMessageView::VehicleControl(_) => "车辆控制"@,
        ParsedMessageView::Unknown { .. } => "未知消息"@,
    }
}

/// The one-line description of a parsed message.
pub open spec fn parsed_description(m: ParsedMessageView) -> Seq<char> {
    match m {
        ParsedMessageView::TerminalGeneralResponse(r) => "应答ID:0x"@ + hex4_upper(r.response_msg_id)
            + " 结果:"@ + decimal(r.result as nat),
        ParsedMessageView::Heartbeat(_) => "心跳"@,
        ParsedMessageView::TerminalRegister(r) => "终端:"@ + r.terminal_id,
        ParsedMessageView::TerminalAuth(r) => "鉴权码:"@ + r.auth_code,
        ParsedMessageView::QueryTerminalAttrResponse(r) => "型号:"@ + r.terminal_model + " 终端ID:"@
            + r.terminal_id,
        ParsedMessageView::RegisterResponse(r) => "结果:"@ + decimal(r.result as nat) + " 鉴权码:"@
            + r.auth_code,
        ParsedMessageView::PlatformGeneralResponse(r) => "应答ID:0x"@ + hex4_upper(r.response_msg_id)
            + " 结果:"@ + decimal(r.result as nat),
        ParsedMessageView::LocationReport(r) => "位置:("@ + decimal(r.longitude as nat) + ","@
            + decimal(r.latitude as nat) + ")"@,
        ParsedMessageView::ParameterSet(r) => decimal(r.total as nat) + "个参数"@,
        ParsedMessageView::TextMessage(r) => r.text,
        ParsedMessageView::VehicleControl(r) => "控制标志:0x"@ + hex_byte_upper(r.control_flag),
        ParsedMessageView::Unknown { msg_id, body } => "ID:0x"@ + hex4_upper(msg_id) + " 长度:"@
            + decimal(body.len()),
    }
}

/// A decoded body as a parsed message, or the raw body when it could not
/// be read.
pub open spec fn or_unknown<T>(r: Option<T>, f: spec_fn(T) -> ParsedMessageView, msg_id: u16, body: Seq<u8>) -> ParsedMessageView {
    match r {
        Some(v) => f(v),
        None => ParsedMessageView::Unknown { msg_id, body },
    }
}

/// What `parse_message` makes of a body: known IDs are read as their body
/// type, falling back to the raw body when that fails; other IDs are kept
/// raw.
pub open spec fn parse_spec(version: ProtocolVersion, msg_id: u16, body: Seq<u8>) -> ParsedMessageView {
    if msg_id == 0x0001 {
        or_unknown(TerminalGeneralResponse::spec_decode(body, version), |v| ParsedMessageView::TerminalGeneralResponse(v), msg_id, body)
    } else if msg_id == 0x0002 {
        or_unknown(Heartbeat::spec_decode(body, version), |v| ParsedMessageView::Heartbeat(v), msg_id, body)
    } else if msg_id == 0x0100 {
        or_unknown(TerminalRegister::spec_decode(body, version), |v| ParsedMessageView::TerminalRegister(v), msg_id, body)
    } else if msg_id == 0x0102 {
        or_unknown(TerminalAuth::spec_decode(body, version), |v| ParsedMessageView::TerminalAuth(v), msg_id, body)
    } else if msg_id == 0x0107 {
        or_unknown(QueryTerminalAttrResponse::spec_decode(body, version), |v| ParsedMessageView::QueryTerminalAttrResponse(v), msg_id, body)
    } else if msg_id == 0x8001 {
        or_unknown(PlatformGeneralResponse::spec_decode(body, version), |v| ParsedMessageView::PlatformGeneralResponse(v), msg_id, body)
    } else if msg_id == 0x8100 {
        or_unknown(RegisterResponse::spec_decode(body, version), |v| ParsedMessageView::RegisterResponse(v), msg_id, body)
    } else if msg_id == 0x0200 {
        or_unknown(LocationReport::spec_decode(body, version), |v| ParsedMessageView::LocationReport(v), msg_id, body)
    } else if msg_id == 0x8103 {
        or_unknown(ParameterSet::spec_decode(body, version), |v| ParsedMessageView::ParameterSet(v), msg_id, body)
    } else if msg_id == 0x8300 {
        or_unknown(TextMessage::spec_decode(body, version), |v| ParsedMessageView::TextMessage(v), msg_id, body)
    } else if msg_id == 0x8500 {
        or_unknown(VehicleControl::spec_decode(body, version), |v| ParsedMessageView::VehicleControl(v), msg_id, body)
    } else {
        ParsedMessageView::Unknown { msg_id, body }
    }
}

impl ParsedMessage {
    /// The message ID.
    pub fn msg_id(&self) -> (id: u16)
        ensures
            id == parsed_msg_id(self@),
    {
        match self {
            ParsedMessage::TerminalGeneralResponse(_) => 0x0001,
            ParsedMessage::Heartbeat(_) => 0x0002,
            ParsedMessage::TerminalRegister(_) => 0x0100,
            ParsedMessage::TerminalAuth(_) => 0x0102,
            ParsedMessage::QueryTerminalAttrResponse(_) => 0x0107,
            ParsedMessage::RegisterResponse(_) => 0x8100,
            ParsedMessage::PlatformGeneralResponse(_) => 0x8001,
            ParsedMessage::LocationReport(_) => 0x0200,
            ParsedMessage::ParameterSet(_) => 0x8103,
            ParsedMessage::TextMessage(_) => 0x8300,
            ParsedMessage::VehicleControl(_) => 0x8500,
            ParsedMessage::Unknown { msg_id, .. } => *msg_id,
        }
    }

    /// The display name.
    pub fn name(&self) -> (n: &'static str)
        ensures
            n@ == parsed_name(self@),
    {
        match self {
            ParsedMessage::TerminalGeneralResponse(_) => "终端通用应答",
            ParsedMessage::Heartbeat(_) => "终端心跳",
            ParsedMessage::TerminalRegister(_) => "终端注册",
            ParsedMessage::TerminalAuth(_) => "终端鉴权",
            ParsedMessage::QueryTerminalAttrResponse(_) => "查询终端属性应答",
            ParsedMessage::RegisterResponse(_) => "平台注册应答",
            ParsedMessage::PlatformGeneralResponse(_) => "平台通用应答",
            ParsedMessage::LocationReport(_) => "位置信息汇报",
            ParsedMessage::ParameterSet(_) => "参数设置",
            ParsedMessage::TextMessage(_) => "文本信息下发",
            ParsedMessage::VehicleControl(_) => "车辆控制",
            ParsedMessage::Unknown { .. } => "未知消息",
        }
    }

    /// A one-line description of the message.
    pub fn description(&self) -> (d: String)
        ensures
            d@ == parsed_description(self@),
    {
        let mut s = String::new();
        match self {
            ParsedMessage::TerminalGeneralResponse(r) => {
                push_str(&mut s, "应答ID:0x");
                push_hex_u16(&mut s, r.response_msg_id);
                push_str(&mut s, " 结果:");
                push_decimal(&mut s, r.result as u64);
            },
            ParsedMessage::Heartbeat(_) => {
                push_str(&mut s, "心跳");
            },
            ParsedMessage::TerminalRegister(r) => {
                push_str(&mut s, "终端:");
                push_str(&mut s, r.terminal_id.as_str());
            },
            ParsedMessage::TerminalAuth(r) => {
                push_str(&mut s, "鉴权码:");
                push_str(&mut s, r.auth_code.as_str());
            },
            ParsedMessage::QueryTerminalAttrResponse(r) => {
                push_str(&mut s, "型号:");
                push_str(&mut s, r.terminal_model.as_str());
                push_str(&mut s, " 终端ID:");
                push_str(&mut s, r.terminal_id.as_str());
            },
            ParsedMessage::RegisterResponse(r) => {
                push_str(&mut s, "结果:");
                push_decimal(&mut s, r.result as u64);
                push_str(&mut s, " 鉴权码:");
                push_str(&mut s, r.auth_code.as_str());
            },
            ParsedMessage::PlatformGeneralResponse(r) => {
                push_str(&mut s, "应答ID:0x");
                push_hex_u16(&mut s, r.response_msg_id);
                push_str(&mut s, " 结果:");
                push_decimal(&mut s, r.result as u64);
            },
            ParsedMessage::LocationReport(r) => {
                push_str(&mut s, "位置:(");
                push_decimal(&mut s, r.longitude as u64);
                push_str(&mut s, ",");
                push_decimal(&mut s, r.latitude as u64);
                push_str(&mut s, ")");
            },
            ParsedMessage::ParameterSet(r) => {
                push_decimal(&mut s, r.total as u64);
                push_str(&mut s, "个参数");
            },
            ParsedMessage::TextMessage(r) => {
                push_str(&mut s, r.text.as_str());
            },
            ParsedMessage::VehicleControl(r) => {
                push_str(&mut s, "控制标志:0x");
                push_hex_u8(&mut s, r.control_flag);
            },
            ParsedMessage::Unknown { msg_id, body } => {
                push_str(&mut s, "ID:0x");
                push_hex_u16(&mut s, *msg_id);
                push_str(&mut s, " 长度:");
                push_decimal(&mut s, body.len() as u64);
            },
        }
        assert(s@ =~= parsed_description(self@));
        s
    }
}

/// Parses a message body by protocol version and message ID; a known body
/// that cannot be read is kept raw.
pub fn parse_message(version: ProtocolVersion, msg_id: u16, body: &[u8]) -> (m: ParsedMessage)
    requires
        msg_id == 0x0100 || msg_id == 0x8300 ==> gbk_len_ok(body@.len() as int),
    ensures
        m@ == parse_spec(version, msg_id, body@),
{
    let unknown = ParsedMessage::Unknown { msg_id, body: vstd::slice::slice_to_vec(body) };
    if msg_id == 0x0001 {
        match TerminalGeneralResponse::decode(body, version) {
            Ok(m) => ParsedMessage::TerminalGeneralResponse(m),
            Err(_) => unknown,
        }
    } else if msg_id == 0x0002 {
        match Heartbeat::decode(body, version) {
            Ok(m) => ParsedMessage::Heartbeat(m),
            Err(_) => unknown,
        }
    } else if msg_id == 0x0100 {
        match TerminalRegister::decode(body, version) {
            Ok(m) => ParsedMessage::TerminalRegister(m),
            Err(_) => unknown,
        }
    } else if msg_id == 0x0102 {
        match TerminalAuth::decode(body, version) {
            Ok(m) => ParsedMessage::TerminalAuth(m),
            Err(_) => unknown,
        }
    } else if msg_id == 0x0107 {
        match QueryTerminalAttrResponse::decode(body, version) {
            Ok(m) => ParsedMessage::QueryTerminalAttrResponse(m),
            Err(_) => unknown,
        }
    } else if msg_id == 0x8001 {
        match PlatformGeneralResponse::decode(body, version) {
            Ok(m) => ParsedMessage::PlatformGeneralResponse(m),
            Err(_) => unknown,
        }
    } else if msg_id == 0x8100 {
        match RegisterResponse::decode(body, version) {
            Ok(m) => ParsedMessage::RegisterResponse(m),
            Err(_) => unknown,
        }
    } else if msg_id == 0x0200 {
        match LocationReport::decode(body, version) {
            Ok(m) => ParsedMessage::LocationReport(m),
            Err(_) => unknown,
        }
    } else if msg_id == 0x8103 {
        match ParameterSet::decode(body, version) {
            Ok(m) => ParsedMessage::ParameterSet(m),
            Err(_) => unknown,
        }
    } else if msg_id == 0x8300 {
        match TextMessage::decode(body, version) {
            Ok(m) => ParsedMessage::TextMessage(m),
            Err(_) => unknown,
        }
    } else if msg_id == 0x8500 {
        match VehicleControl::decode(body, version) {
            Ok(m) => ParsedMessage::VehicleControl(m),
            Err(_) => unknown,
        }
    } else {
        unknown
    }
}

/// Parsing keeps the message ID: the parsed message reports the ID it was
/// parsed under, whether its body could be read or not.
pub proof fn law_parse_keeps_msg_id(version: ProtocolVersion, msg_id: u16, body: Seq<u8>)
    ensures
        parsed_msg_id(parse_spec(version, msg_id, body)) == msg_id,
{
}

// ==================== Laws: reading back what was written ====================

/// A general response reads back as written.
pub proof fn law_general_response_roundtrip(v: TerminalGeneralResponse, w: PlatformGeneralResponse, version: ProtocolVersion)
    ensures
        TerminalGeneralResponse::spec_decode(TerminalGeneralResponse::spec_encode(v, version), version) == Some(v),
        PlatformGeneralResponse::spec_decode(PlatformGeneralResponse::spec_encode(w, version), version) == Some(w),
{
    let e = TerminalGeneralResponse::spec_encode(v, version);
    lemma_be16_roundtrip(v.response_serial_no, Seq::empty(), be16(v.response_msg_id) + seq![v.result]);
    assert(e =~= Seq::<u8>::empty() + be16(v.response_serial_no) + (be16(v.response_msg_id) + seq![v.result]));
    lemma_be16_roundtrip(v.response_msg_id, be16(v.response_serial_no), seq![v.result]);
    let f = PlatformGeneralResponse::spec_encode(w, version);
    lemma_be16_roundtrip(w.response_serial_no, Seq::empty(), be16(w.response_msg_id) + seq![w.result]);
    assert(f =~= Seq::<u8>::empty() + be16(w.response_serial_no) + (be16(w.response_msg_id) + seq![w.result]));
    lemma_be16_roundtrip(w.response_msg_id, be16(w.response_serial_no), seq![w.result]);
}

/// A vehicle control body and a heartbeat read back as written.
pub proof fn law_vehicle_control_heartbeat_roundtrip(v: VehicleControl, version: ProtocolVersion)
    ensures
        VehicleControl::spec_decode(VehicleControl::spec_encode(v, version), version) == Some(v),
        Heartbeat::spec_decode(Heartbeat::spec_encode(Heartbeat, version), version) == Some(Heartbeat),
{
}

/// GBK text that reads back as itself: ASCII without a trailing '\0'.
proof fn lemma_ascii_gbk_roundtrip(s: Seq<char>)
    requires
        is_ascii_chars(s),
        no_trailing_nul(s),
    ensures
        trim_trailing_nuls(gbk_decoded(gbk_encoded(s))) == s,
{
    is_ascii_chars_encode_utf8(s);
    let b = encode_utf8(s);
    assert forall|i: int| 0 <= i < b.len() implies b[i] < 0x80 by {
        assert(b[i] == s[i] as u8);
    }
    assert(b.map_values(|x: u8| x as char) =~= s) by {
        assert forall|i: int| 0 <= i < s.len() implies b.map_values(|x: u8| x as char)[i] == s[i] by {
            assert(b[i] == s[i] as u8);
            assert((s[i] as u8) as char == s[i]);
        }
    }
    lemma_trim_nuls_none(s);
}

/// Reading back a register body written with fields that fit gives the same
/// fields; the plate comes back as GBK makes of it (itself, for ASCII
/// plates without a trailing '\0').
pub proof fn law_register_roundtrip(v: TerminalRegisterView, version: ProtocolVersion)
    requires
        fits_field(v.manufacturer_id, register_lengths(version).0 as nat),
        fits_field(v.terminal_model, register_lengths(version).1 as nat),
        fits_field(v.terminal_id, register_lengths(version).2 as nat),
    ensures
        TerminalRegister::spec_decode(TerminalRegister::spec_encode(v, version), version) == Some(
            TerminalRegisterView {
                plate_number: trim_trailing_nuls(gbk_decoded(gbk_encoded(v.plate_number))),
                ..v
            },
        ),
        is_ascii_chars(v.plate_number) && no_trailing_nul(v.plate_number) ==> TerminalRegister::spec_decode(
            TerminalRegister::spec_encode(v, version),
            version,
        ) == Some(v),
{
    let (m, md, t) = register_lengths(version);
    let a = be16(v.province_id);
    let b = be16(v.city_id);
    let f1 = fit_bytes(encode_utf8(v.manufacturer_id), m as nat);
    let f2 = fit_bytes(encode_utf8(v.terminal_model), md as nat);
    let f3 = fit_bytes(encode_utf8(v.terminal_id), t as nat);
    let c = seq![v.color];
    let g = gbk_encoded(v.plate_number);
    let d = TerminalRegister::spec_encode(v, version);
    assert(d =~= a + b + f1 + f2 + f3 + c + g);
    assert(f1.len() == m && f2.len() == md && f3.len() == t);
    lemma_be16_roundtrip(v.province_id, Seq::empty(), b + f1 + f2 + f3 + c + g);
    assert(d =~= Seq::<u8>::empty() + a + (b + f1 + f2 + f3 + c + g));
    lemma_be16_roundtrip(v.city_id, a, f1 + f2 + f3 + c + g);
    assert(d =~= a + b + (f1 + f2 + f3 + c + g));
    assert(d.subrange(4, 4 + m) =~= f1);
    assert(d.subrange(4 + m, 4 + m + md) =~= f2);
    assert(d.subrange(4 + m + md, 4 + m + md + t) =~= f3);
    assert(d[4 + m + md + t] == v.color);
    assert(d.skip(4 + m + md + t + 1) =~= g);
    lemma_field_roundtrip(v.manufacturer_id, m as nat);
    lemma_field_roundtrip(v.terminal_model, md as nat);
    lemma_field_roundtrip(v.terminal_id, t as nat);
    if is_ascii_chars(v.plate_number) && no_trailing_nul(v.plate_number) {
        lemma_ascii_gbk_roundtrip(v.plate_number);
    }
}

/// An authentication body reads back as written: for 2019 when the code is
/// shorter than 256 bytes and the IMEI and software version fit their
/// fields; for 2013 (and plain TCP) only the code is carried.
pub proof fn law_auth_roundtrip(v: TerminalAuthView, version: ProtocolVersion)
    requires
        no_trailing_nul(v.auth_code),
        version == ProtocolVersion::V2019 ==> encode_utf8(v.auth_code).len() < 256 && fits_field(
            v.imei,
            15,
        ) && fits_field(v.software_version, 20),
    ensures
        TerminalAuth::spec_decode(TerminalAuth::spec_encode(v, version), version) == Some(
            if version == ProtocolVersion::V2019 {
                v
            } else {
                TerminalAuthView {
                    auth_code: v.auth_code,
                    imei: Seq::empty(),
                    software_version: Seq::empty(),
                }
            },
        ),
{
    let code = encode_utf8(v.auth_code);
    lemma_text_roundtrip(v.auth_code);
    if version == ProtocolVersion::V2019 {
        let f1 = fit_bytes(encode_utf8(v.imei), 15);
        let f2 = fit_bytes(encode_utf8(v.software_version), 20);
        let d = TerminalAuth::spec_encode(v, version);
        let n = code.len() as int;
        assert(d =~= seq![(code.len() % 256) as u8] + code + f1 + f2);
        assert(d[0] == n);
        assert(d.subrange(1, 1 + n) =~= code);
        assert(d.subrange(1 + n, 1 + n + 15) =~= f1);
        assert(d.subrange(1 + n + 15, 1 + n + 35) =~= f2);
        lemma_field_roundtrip(v.imei, 15);
        lemma_field_roundtrip(v.software_version, 20);
        assert(auth_2019_decode(d) =~= v);
    }
}

/// A register response reads back as written when its code does not end in
/// '\0'.
pub proof fn law_register_response_roundtrip(v: RegisterResponseView, version: ProtocolVersion)
    requires
        no_trailing_nul(v.auth_code),
    ensures
        RegisterResponse::spec_decode(RegisterResponse::spec_encode(v, version), version) == Some(v),
{
    let d = RegisterResponse::spec_encode(v, version);
    lemma_be16_roundtrip(v.response_serial_no, Seq::empty(), seq![v.result] + encode_utf8(v.auth_code));
    assert(d =~= Seq::<u8>::empty() + be16(v.response_serial_no) + (seq![v.result] + encode_utf8(
        v.auth_code,
    )));
    assert(d.skip(3) =~= encode_utf8(v.auth_code));
    lemma_text_roundtrip(v.auth_code);
}

/// A text message reads back with its flag, and its text as GBK makes of
/// it (itself, for ASCII text without a trailing '\0').
pub proof fn law_text_message_roundtrip(v: TextMessageView, version: ProtocolVersion)
    ensures
        TextMessage::spec_decode(TextMessage::spec_encode(v, version), version) == Some(
            TextMessageView { flag: v.flag, text: trim_trailing_nuls(gbk_decoded(gbk_encoded(v.text))) },
        ),
        is_ascii_chars(v.text) && no_trailing_nul(v.text) ==> TextMessage::spec_decode(
            TextMessage::spec_encode(v, version),
            version,
        ) == Some(v),
{
    let d = TextMessage::spec_encode(v, version);
    assert(d.skip(1) =~= gbk_encoded(v.text));
    if is_ascii_chars(v.text) && no_trailing_nul(v.text) {
        lemma_ascii_gbk_roundtrip(v.text);
    }
}

/// Parameters each shorter than 256 bytes.
pub open spec fn params_fit(items: Seq<(u32, Seq<u8>)>) -> bool {
    forall|i: int| 0 <= i < items.len() ==> #[trigger] items[i].1.len() < 256
}

#[verifier::rlimit(40)]
proof fn lemma_parse_params_of_bytes(items: Seq<(u32, Seq<u8>)>, pre: Seq<u8>)
    requires
        params_fit(items),
    ensures
        parse_params(pre + params_bytes(items), pre.len() as int) == items,
    decreases items.len(),
{
    let d = pre + params_bytes(items);
    let p = pre.len() as int;
    if items.len() == 0 {
        assert(params_bytes(items) =~= Seq::<u8>::empty());
        assert(d =~= pre);
        assert(parse_params(d, p) =~= items);
    } else {
        let first = items[0];
        let rest = items.skip(1);
        assert forall|i: int| 0 <= i < rest.len() implies #[trigger] rest[i].1.len() < 256 by {
            assert(rest[i] == items[i + 1]);
        }
        let lb = seq![(first.1.len() % 256) as u8];
        let tail = lb + first.1 + params_bytes(rest);
        lemma_params_bytes_front(items);
        assert(d =~= pre + be32(first.0) + tail);
        let head = be32(first.0) + lb + first.1;
        lemma_parse_params_of_bytes(rest, pre + head);
        assert(d =~= (pre + head) + params_bytes(rest));
        let q = (pre + head).len() as int;
        assert(q == p + 5 + first.1.len());
        lemma_be32_roundtrip(first.0, pre, tail);
        assert(read_be32(d, p) == first.0);
        assert(d[p + 4] == lb[0]);
        assert(lb[0] as int == first.1.len());
        assert(d.subrange(p + 5, q) =~= first.1);
        assert(p + 5 <= d.len());
        assert(parse_params(d, p) == seq![(first.0, first.1)] + parse_params(d, q));
        assert(parse_params(d, q) == rest);
        assert(items =~= seq![first] + rest);
    }
}

proof fn lemma_params_bytes_front(items: Seq<(u32, Seq<u8>)>)
    requires
        items.len() > 0,
    ensures
        params_bytes(items) == be32(items[0].0) + seq![(items[0].1.len() % 256) as u8] + items[0].1
            + params_bytes(items.skip(1)),
    decreases items.len(),
{
    let it = items[0];
    let head = be32(it.0) + seq![(it.1.len() % 256) as u8] + it.1;
    if items.len() == 1 {
        assert(items.drop_last() =~= Seq::<(u32, Seq<u8>)>::empty());
        assert(items.skip(1) =~= Seq::<(u32, Seq<u8>)>::empty());
        assert(params_bytes(items.skip(1)) =~= Seq::<u8>::empty());
        assert(params_bytes(items.drop_last()) =~= Seq::<u8>::empty());
        assert(params_bytes(items) =~= head + params_bytes(items.skip(1)));
    } else {
        lemma_params_bytes_front(items.drop_last());
        assert(items.drop_last()[0] == it);
        assert(items.drop_last().skip(1) =~= items.skip(1).drop_last());
        assert(items.skip(1).last() == items.last());
        assert(params_bytes(items) =~= head + params_bytes(items.skip(1)));
    }
}

/// A parameter-set body reads back as written when every value is shorter
/// than 256 bytes.
pub proof fn law_parameter_set_roundtrip(v: ParameterSetView, version: ProtocolVersion)
    requires
        params_fit(v.items),
    ensures
        ParameterSet::spec_decode(ParameterSet::spec_encode(v, version), version) == Some(v),
{
    lemma_parse_params_of_bytes(v.items, seq![v.total]);
    assert(ParameterSet::spec_encode(v, version) =~= seq![v.total] + params_bytes(v.items));
}

/// Additional items that read back: values shorter than 256 bytes, and the
/// last value not empty (an empty value at the very end is not read).
pub open spec fn extra_items_fit(items: Seq<(u8, Seq<u8>)>) -> bool {
    &&& forall|i: int| 0 <= i < items.len() ==> #[trigger] items[i].1.len() < 256
    &&& (items.len() == 0 || items.last().1.len() > 0)
}

proof fn lemma_extra_bytes_front(items: Seq<(u8, Seq<u8>)>)
    requires
        items.len() > 0,
    ensures
        extra_items_bytes(items) == seq![items[0].0, (items[0].1.len() % 256) as u8] + items[0].1
            + extra_items_bytes(items.skip(1)),
    decreases items.len(),
{
    let it = items[0];
    let head = seq![it.0, (it.1.len() % 256) as u8] + it.1;
    if items.len() == 1 {
        assert(items.drop_last() =~= Seq::<(u8, Seq<u8>)>::empty());
        assert(items.skip(1) =~= Seq::<(u8, Seq<u8>)>::empty());
        assert(extra_items_bytes(items.skip(1)) =~= Seq::<u8>::empty());
        assert(extra_items_bytes(items.drop_last()) =~= Seq::<u8>::empty());
        assert(extra_items_bytes(items) =~= head + extra_items_bytes(items.skip(1)));
    } else {
        lemma_extra_bytes_front(items.drop_last());
        assert(items.drop_last()[0] == it);
        assert(items.drop_last().skip(1) =~= items.skip(1).drop_last());
        assert(items.skip(1).last() == items.last());
        assert(extra_items_bytes(items) =~= head + extra_items_bytes(items.skip(1)));
    }
}

proof fn lemma_extra_bytes_len(items: Seq<(u8, Seq<u8>)>)
    ensures
        items.len() > 0 ==> extra_items_bytes(items).len() >= 2 + items.last().1.len(),
    decreases items.len(),
{
    if items.len() > 0 {
        lemma_extra_bytes_len(items.drop_last());
    }
}

#[verifier::rlimit(40)]
proof fn lemma_parse_extra_of_bytes(items: Seq<(u8, Seq<u8>)>, pre: Seq<u8>)
    requires
        extra_items_fit(items),
    ensures
        parse_extra_items(pre + extra_items_bytes(items), pre.len() as int) == items,
    decreases items.len(),
{
    let d = pre + extra_items_bytes(items);
    let p = pre.len() as int;
    if items.len() == 0 {
        assert(extra_items_bytes(items) =~= Seq::<u8>::empty());
        assert(d =~= pre);
        assert(parse_extra_items(d, p) =~= items);
    } else {
        let first = items[0];
        let rest = items.skip(1);
        assert forall|i: int| 0 <= i < rest.len() implies #[trigger] rest[i].1.len() < 256 by {
            assert(rest[i] == items[i + 1]);
        }
        if rest.len() > 0 {
            assert(rest.last() == items.last());
        }
        let head = seq![first.0, (first.1.len() % 256) as u8] + first.1;
        lemma_extra_bytes_front(items);
        lemma_parse_extra_of_bytes(rest, pre + head);
        assert(d =~= (pre + head) + extra_items_bytes(rest));
        let q = (pre + head).len() as int;
        assert(q == p + 2 + first.1.len());
        lemma_extra_bytes_len(rest);
        if rest.len() == 0 {
            assert(items.last() == first);
        }
        assert(p + 2 < d.len());
        assert(d[p] == first.0);
        assert(d[p + 1] as int == first.1.len());
        assert(d.subrange(p + 2, q) =~= first.1);
        assert(parse_extra_items(d, p) == seq![(first.0, first.1)] + parse_extra_items(d, q));
        assert(items =~= seq![first] + rest);
    }
}

/// A location report reads back as written when its additional items read
/// back; the timestamp comes back as the text of its BCD field, which is
/// the timestamp itself when it is twelve upper-case hexadecimal digits.
pub proof fn law_location_roundtrip(v: LocationReportView, version: ProtocolVersion)
    requires
        extra_items_fit(v.extra_items),
    ensures
        LocationReport::spec_decode(LocationReport::spec_encode(v, version), version) == Some(
            LocationReportView { timestamp: bcd_chars(bcd_spec(encode_utf8(v.timestamp), 6)), ..v },
        ),
        v.timestamp.len() == 12 && (forall|i: int|
            0 <= i < 12 ==> is_upper_hex_char(#[trigger] v.timestamp[i])) ==> LocationReport::spec_decode(
            LocationReport::spec_encode(v, version),
            version,
        ) == Some(v),
{
    if v.timestamp.len() == 12 && (forall|i: int| 0 <= i < 12 ==> is_upper_hex_char(#[trigger] v.timestamp[i])) {
        law_bcd_of_hex_text(v.timestamp, 6);
    }
    let ts = bcd_spec(encode_utf8(v.timestamp), 6);
    let items = extra_items_bytes(v.extra_items);
    let nums = be32(v.alarm_flags) + be32(v.status) + be32(v.latitude) + be32(v.longitude) + be16(
        v.altitude,
    ) + be16(v.speed) + be16(v.direction);
    let d = LocationReport::spec_encode(v, version);
    assert(d =~= nums + ts + items);
    assert(nums.len() == 22);
    lemma_be32_roundtrip(v.alarm_flags, Seq::empty(), d.skip(4));
    assert(d =~= Seq::<u8>::empty() + be32(v.alarm_flags) + d.skip(4));
    lemma_be32_roundtrip(v.status, d.take(4), d.skip(8));
    assert(d =~= d.take(4) + be32(v.status) + d.skip(8));
    lemma_be32_roundtrip(v.latitude, d.take(8), d.skip(12));
    assert(d =~= d.take(8) + be32(v.latitude) + d.skip(12));
    lemma_be32_roundtrip(v.longitude, d.take(12), d.skip(16));
    assert(d =~= d.take(12) + be32(v.longitude) + d.skip(16));
    lemma_be16_roundtrip(v.altitude, d.take(16), d.skip(18));
    assert(d =~= d.take(16) + be16(v.altitude) + d.skip(18));
    lemma_be16_roundtrip(v.speed, d.take(18), d.skip(20));
    assert(d =~= d.take(18) + be16(v.speed) + d.skip(20));
    lemma_be16_roundtrip(v.direction, d.take(20), d.skip(22));
    assert(d =~= d.take(20) + be16(v.direction) + d.skip(22));
    assert(d.subrange(22, 28) =~= ts);
    lemma_parse_extra_of_bytes(v.extra_items, nums + ts);
    assert(d =~= (nums + ts) + items);
}

/// A length-prefixed text that reads back: shorter than 256 bytes, no
/// trailing '\0'.
pub open spec fn fits_len_prefixed(t: Seq<char>) -> bool {
    encode_utf8(t).len() < 256 && no_trailing_nul(t)
}

/// A terminal attribute body reads back as written when its texts fit
/// their fields; the ICCID comes back as the text of its BCD field.
#[verifier::rlimit(40)]
pub proof fn law_attr_roundtrip(v: QueryTerminalAttrView, version: ProtocolVersion)
    requires
        fits_field(v.manufacturer_id, 5),
        fits_field(v.terminal_model, attr_lengths(version).0 as nat),
        fits_field(v.terminal_id, attr_lengths(version).1 as nat),
        fits_len_prefixed(v.hardware_version),
        fits_len_prefixed(v.firmware_version),
    ensures
        QueryTerminalAttrResponse::spec_decode(QueryTerminalAttrResponse::spec_encode(v, version), version)
            == Some(QueryTerminalAttrView { iccid: bcd_chars(bcd_spec(encode_utf8(v.iccid), 10)), ..v }),
{
    let (ml, tl) = attr_lengths(version);
    let a = be16(v.terminal_type);
    let f1 = fit_bytes(encode_utf8(v.manufacturer_id), 5);
    let f2 = fit_bytes(encode_utf8(v.terminal_model), ml as nat);
    let f3 = fit_bytes(encode_utf8(v.terminal_id), tl as nat);
    let ic = bcd_spec(encode_utf8(v.iccid), 10);
    let hw = encode_utf8(v.hardware_version);
    let fw = encode_utf8(v.firmware_version);
    let h = len_prefixed_bytes(v.hardware_version);
    let f = len_prefixed_bytes(v.firmware_version);
    let tail = seq![v.gnss_attr, v.comm_attr];
    let d = QueryTerminalAttrResponse::spec_encode(v, version);
    assert(d =~= a + f1 + f2 + f3 + ic + h + f + tail);
    lemma_be16_roundtrip(v.terminal_type, Seq::empty(), f1 + f2 + f3 + ic + h + f + tail);
    assert(d =~= Seq::<u8>::empty() + a + (f1 + f2 + f3 + ic + h + f + tail));
    let p0 = 7 + ml + tl;
    let p1 = p0 + 10;
    let p2 = p1 + 1 + hw.len();
    let p3 = p2 + 1 + fw.len();
    assert(d.subrange(2, 7) =~= f1);
    assert(d.subrange(7, 7 + ml) =~= f2);
    assert(d.subrange(7 + ml, p0) =~= f3);
    assert(d.subrange(p0, p1) =~= ic);
    assert(d[p1] as int == hw.len());
    assert(d.subrange(p1 + 1, p2) =~= hw);
    assert(d[p2] as int == fw.len());
    assert(d.subrange(p2 + 1, p3) =~= fw);
    assert(d[p3] == v.gnss_attr);
    assert(d[p3 + 1] == v.comm_attr);
    assert(d.len() == p3 + 2);
    lemma_field_roundtrip(v.manufacturer_id, 5);
    lemma_field_roundtrip(v.terminal_model, ml as nat);
    lemma_field_roundtrip(v.terminal_id, tl as nat);
    lemma_text_roundtrip(v.hardware_version);
    lemma_text_roundtrip(v.firmware_version);
    assert(len_prefixed(d, p1) == (v.hardware_version, p2));
    assert(len_prefixed(d, p2) == (v.firmware_version, p3));
    assert(attr_decode(d, version) =~= QueryTerminalAttrView { iccid: bcd_chars(ic), ..v });
}

// ==================== Laws: where fields sit in a body ====================

/// A location report body starts with seven big-endian numbers at fixed
/// places: alarm flags at bytes 0..4, status at 4..8, latitude at 8..12,
/// longitude at 12..16, altitude at 16..18, speed at 18..20 and direction
/// at 20..22; the 6-byte BCD timestamp follows at 22..28.
#[verifier::rlimit(40)]
pub proof fn law_location_layout(v: LocationReportView, version: ProtocolVersion)
    ensures
        ({
            let e = LocationReport::spec_encode(v, version);
            &&& e.len() >= 28
            &&& e.subrange(8, 12) == be32(v.latitude)
            &&& e.subrange(12, 16) == be32(v.longitude)
            &&& e[0] * 0x100_0000 + e[1] * 0x1_0000 + e[2] * 256 + e[3] == v.alarm_flags
            &&& e[4] * 0x100_0000 + e[5] * 0x1_0000 + e[6] * 256 + e[7] == v.status
            &&& e[8] * 0x100_0000 + e[9] * 0x1_0000 + e[10] * 256 + e[11] == v.latitude
            &&& e[12] * 0x100_0000 + e[13] * 0x1_0000 + e[14] * 256 + e[15] == v.longitude
            &&& e[16] * 256 + e[17] == v.altitude
            &&& e[18] * 256 + e[19] == v.speed
            &&& e[20] * 256 + e[21] == v.direction
            &&& e.subrange(22, 28) == bcd_spec(encode_utf8(v.timestamp), 6)
        }),
{
    let e = LocationReport::spec_encode(v, version);
    let ts = bcd_spec(encode_utf8(v.timestamp), 6);
    let items = extra_items_bytes(v.extra_items);
    let p1 = be32(v.alarm_flags) + be32(v.status);
    let p2 = p1 + be32(v.latitude) + be32(v.longitude);
    let p3 = p2 + be16(v.altitude) + be16(v.speed) + be16(v.direction);
    assert(e == p3 + ts + items);
    assert(p1.len() == 8 && p2.len() == 16 && p3.len() == 22);
    lemma_be32_value(v.alarm_flags);
    lemma_be32_value(v.status);
    lemma_be32_value(v.latitude);
    lemma_be32_value(v.longitude);
    lemma_be16_value(v.altitude);
    lemma_be16_value(v.speed);
    lemma_be16_value(v.direction);
    assert forall|k: int| 0 <= k < 4 implies e[k] == be32(v.alarm_flags)[k] && e[4 + k] == be32(
        v.status,
    )[k] && e[8 + k] == be32(v.latitude)[k] && e[12 + k] == be32(v.longitude)[k] by {
        assert(e[k] == p3[k] && p3[k] == p2[k] && p2[k] == p1[k]);
        assert(e[4 + k] == p3[4 + k] && p3[4 + k] == p2[4 + k] && p2[4 + k] == p1[4 + k]);
        assert(e[8 + k] == p3[8 + k] && p3[8 + k] == p2[8 + k]);
        assert(e[12 + k] == p3[12 + k] && p3[12 + k] == p2[12 + k]);
    }
    assert forall|k: int| 0 <= k < 2 implies e[16 + k] == be16(v.altitude)[k] && e[18 + k] == be16(
        v.speed,
    )[k] && e[20 + k] == be16(v.direction)[k] by {
        assert(e[16 + k] == p3[16 + k]);
        assert(e[18 + k] == p3[18 + k]);
        assert(e[20 + k] == p3[20 + k]);
    }
    assert(e.subrange(8, 12) =~= be32(v.latitude));
    assert(e.subrange(12, 16) =~= be32(v.longitude));
    assert(e.subrange(22, 28) =~= ts);
}

proof fn lemma_be32_value(x: u32)
    ensures
        be32(x)[0] * 0x100_0000 + be32(x)[1] * 0x1_0000 + be32(x)[2] * 256 + be32(x)[3] == x,
{
    lemma_be32_roundtrip(x, Seq::empty(), Seq::empty());
    assert(Seq::<u8>::empty() + be32(x) + Seq::<u8>::empty() =~= be32(x));
}

proof fn lemma_be16_value(x: u16)
    ensures
        be16(x)[0] * 256 + be16(x)[1] == x,
{
    lemma_be16_roundtrip(x, Seq::empty(), Seq::empty());
    assert(Seq::<u8>::empty() + be16(x) + Seq::<u8>::empty() =~= be16(x));
}

/// A location report of at least 28 bytes is read field by field from the
/// same places: latitude from bytes 8..12 and longitude from 12..16, each
/// big-endian, and the other numbers around them.
pub proof fn law_location_fields_read(data: Seq<u8>, version: ProtocolVersion)
    requires
        data.len() >= 28,
    ensures
        LocationReport::spec_decode(data, version) matches Some(r) && {
            &&& r.alarm_flags == data[0] * 0x100_0000 + data[1] * 0x1_0000 + data[2] * 256 + data[3]
            &&& r.status == data[4] * 0x100_0000 + data[5] * 0x1_0000 + data[6] * 256 + data[7]
            &&& r.latitude == data[8] * 0x100_0000 + data[9] * 0x1_0000 + data[10] * 256 + data[11]
            &&& r.longitude == data[12] * 0x100_0000 + data[13] * 0x1_0000 + data[14] * 256
                + data[15]
            &&& r.altitude == data[16] * 256 + data[17]
            &&& r.speed == data[18] * 256 + data[19]
            &&& r.direction == data[20] * 256 + data[21]
        },
{
}

/// A terminal register body starts with the province ID at bytes 0..2 and
/// the city ID at bytes 2..4, each big-endian, in every version.
pub proof fn law_register_layout(v: TerminalRegisterView, version: ProtocolVersion)
    ensures
        ({
            let e = TerminalRegister::spec_encode(v, version);
            &&& e.len() >= 4
            &&& e.take(4) == be16(v.province_id) + be16(v.city_id)
            &&& e[0] * 256 + e[1] == v.province_id
            &&& e[2] * 256 + e[3] == v.city_id
        }),
{
    let e = TerminalRegister::spec_encode(v, version);
    let (m, md, t) = register_lengths(version);
    let rest = fit_bytes(encode_utf8(v.manufacturer_id), m as nat) + fit_bytes(
        encode_utf8(v.terminal_model),
        md as nat,
    ) + fit_bytes(encode_utf8(v.terminal_id), t as nat) + seq![v.color] + gbk_encoded(v.plate_number);
    assert(e =~= be16(v.province_id) + be16(v.city_id) + rest);
    lemma_be16_roundtrip(v.province_id, Seq::empty(), be16(v.city_id) + rest);
    assert(e =~= Seq::<u8>::empty() + be16(v.province_id) + (be16(v.city_id) + rest));
    lemma_be16_roundtrip(v.city_id, be16(v.province_id), rest);
    assert(e =~= be16(v.province_id) + be16(v.city_id) + rest);
    assert(e.take(4) =~= be16(v.province_id) + be16(v.city_id));
}

/// A terminal register body long enough to read (37 bytes for 2013 and
/// plain TCP, 76 for 2019) gives the province ID from bytes 0..2 and the
/// city ID from bytes 2..4.
pub proof fn law_register_ids_read(data: Seq<u8>, version: ProtocolVersion)
    requires
        data.len() >= (if version == ProtocolVersion::V2019 { 76int } else { 37int }),
    ensures
        TerminalRegister::spec_decode(data, version) matches Some(r) && r.province_id == data[0] * 256
            + data[1] && r.city_id == data[2] * 256 + data[3],
{
}

/// The description of a general response, from the platform or from the
/// terminal, names the message it answers (bytes 2..4 of the body) and the
/// result (byte 4), not the serial number (bytes 0..2); both kinds read the
/// same body to the same description.
pub proof fn law_general_response_description(version: ProtocolVersion, body: Seq<u8>)
    requires
        body.len() >= 5,
    ensures
        parsed_description(parse_spec(version, 0x8001, body)) == "应答ID:0x"@ + hex4_upper(
            (body[2] * 256 + body[3]) as u16,
        ) + " 结果:"@ + decimal(body[4] as nat),
        parsed_description(parse_spec(version, 0x0001, body)) == "应答ID:0x"@ + hex4_upper(
            (body[2] * 256 + body[3]) as u16,
        ) + " 结果:"@ + decimal(body[4] as nat),
        parsed_description(parse_spec(version, 0x8001, body)) == parsed_description(
            parse_spec(version, 0x0001, body),
        ),
{
}

/// Every known message ID whose body reads as its type is parsed as that
/// type, holding what was read.
pub proof fn law_parse_known_bodies(version: ProtocolVersion, body: Seq<u8>)
    ensures
        TerminalGeneralResponse::spec_decode(body, version) matches Some(v) ==> parse_spec(
            version,
            0x0001,
            body,
        ) == ParsedMessageView::TerminalGeneralResponse(v),
        parse_spec(version, 0x0002, body) == ParsedMessageView::Heartbeat(Heartbeat),
        TerminalRegister::spec_decode(body, version) matches Some(v) ==> parse_spec(
            version,
            0x0100,
            body,
        ) == ParsedMessageView::TerminalRegister(v),
        TerminalAuth::spec_decode(body, version) matches Some(v) ==> parse_spec(version, 0x0102, body)
            == ParsedMessageView::TerminalAuth(v),
        QueryTerminalAttrResponse::spec_decode(body, version) matches Some(v) ==> parse_spec(
            version,
            0x0107,
            body,
        ) == ParsedMessageView::QueryTerminalAttrResponse(v),
        PlatformGeneralResponse::spec_decode(body, version) matches Some(v) ==> parse_spec(
            version,
            0x8001,
            body,
        ) == ParsedMessageView::PlatformGeneralResponse(v),
        RegisterResponse::spec_decode(body, version) matches Some(v) ==> parse_spec(
            version,
            0x8100,
            body,
        ) == ParsedMessageView::RegisterResponse(v),
        LocationReport::spec_decode(body, version) matches Some(v) ==> parse_spec(version, 0x0200, body)
            == ParsedMessageView::LocationReport(v),
        ParameterSet::spec_decode(body, version) matches Some(v) ==> parse_spec(version, 0x8103, body)
            == ParsedMessageView::ParameterSet(v),
        TextMessage::spec_decode(body, version) matches Some(v) ==> parse_spec(version, 0x8300, body)
            == ParsedMessageView::TextMessage(v),
        VehicleControl::spec_decode(body, version) matches Some(v) ==> parse_spec(version, 0x8500, body)
            == ParsedMessageView::VehicleControl(v),
{
}

/// Which variant a body of a known message ID is parsed as, by its length
/// alone, with the fields read straight from its bytes: a text message
/// (0x8300) of at least one byte is a text message whose flag is its first
/// byte; a general response of at least 5 bytes answers bytes 2..4 with
/// result byte 4; a location report of at least 28 bytes, a parameter set
/// or vehicle control of at least one byte, a register response of at least
/// 3 bytes and a heartbeat of any length are read as those types.
pub proof fn law_parse_by_length(version: ProtocolVersion, body: Seq<u8>)
    ensures
        body.len() >= 1 ==> (parse_spec(version, 0x8300, body) matches ParsedMessageView::TextMessage(t)
            && t.flag == body[0]),
        body.len() >= 1 ==> (parse_spec(version, 0x8500, body) matches ParsedMessageView::VehicleControl(
            c,
        ) && c.control_flag == body[0]),
        body.len() >= 1 ==> (parse_spec(version, 0x8103, body) matches ParsedMessageView::ParameterSet(
            p,
        ) && p.total == body[0]),
        body.len() >= 3 ==> (parse_spec(version, 0x8100, body) matches ParsedMessageView::RegisterResponse(
            r,
        ) && r.response_serial_no == body[0] * 256 + body[1] && r.result == body[2]),
        body.len() >= 5 ==> (parse_spec(version, 0x0001, body) matches ParsedMessageView::TerminalGeneralResponse(
            r,
        ) && r.response_serial_no == body[0] * 256 + body[1] && r.response_msg_id == body[2] * 256
            + body[3] && r.result == body[4]),
        body.len() >= 5 ==> (parse_spec(version, 0x8001, body) matches ParsedMessageView::PlatformGeneralResponse(
            r,
        ) && r.response_serial_no == body[0] * 256 + body[1] && r.response_msg_id == body[2] * 256
            + body[3] && r.result == body[4]),
        body.len() >= 28 ==> parse_spec(version, 0x0200, body) is LocationReport,
        parse_spec(version, 0x0002, body) is Heartbeat,
{
}

} // verus!
