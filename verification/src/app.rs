//! The decisions of the debugging client: message directions and
//! encodings, quick commands and re-framing a captured frame for another
//! protocol version and terminal.

use vstd::prelude::*;

use crate::protocol::builder::{build_frame_spec, frame_header_view, law_build_frame_roundtrip};
use crate::protocol::codec::{
    decode_message, decode_spec, escape_spec, lemma_decode_len, xor_all, DELIMITER,
};
use crate::protocol::message::{
    law_auth_roundtrip, law_register_roundtrip, parse_message, parse_spec, parsed_description,
    register_lengths, parsed_msg_id, parsed_name, Jt808Message, LocationReport, ParameterSet, ParsedMessage,
    ParsedMessageView, PlatformGeneralResponse, QueryTerminalAttrResponse, RegisterResponse,
    TerminalAuth, TerminalAuthView, TerminalGeneralResponse, TerminalRegister,
    TerminalRegisterView, TextMessage, VehicleControl,
};
use crate::protocol::text::{
    fits_field, gbk_encode, gbk_encoded, gbk_len_ok, no_trailing_nul, hex4_upper, hex_byte_upper, hex_digit_upper, hex_lower,
    is_white_space, owned, push_hex_lower, push_hex_u16, push_hex_u8, push_str, trim_end_ws,
    to_lowercase, trim_start_ws, utf8_str, trim_whitespace, trimmed, unicode_lowercase, unix_nanos,
};
use crate::protocol::types::{
    contains_bytes, contains_run, header_bytes, hex_value, is_hex_byte, parse_header_spec, version_name, version_short_name,
    MsgHeader, ProtocolVersion,
};
use vstd::utf8::{decode_utf8, encode_utf8, is_ascii_chars, is_char_boundary, valid_utf8};


verus! {

/// Direction of a message in the stream.
#[derive(Debug, Clone, Copy, PartialEq, Eq, Structural)]
pub enum Direction {
    Send,
    Receive,
}

impl Direction {
    /// Arrow shown before a message.
    pub fn arrow(&self) -> (r: &'static str)
        ensures
            r@ == (match *self {
                Direction::Send => "→"@,
                Direction::Receive => "←"@,
            }),
    {
        match self {
            Direction::Send => "→",
            Direction::Receive => "←",
        }
    }

    /// Name of the direction.
    pub fn name(&self) -> (r: &'static str)
        ensures
            r@ == (match *self {
                Direction::Send => "发送"@,
                Direction::Receive => "接收"@,
            }),
    {
        match self {
            Direction::Send => "发送",
            Direction::Receive => "接收",
        }
    }

    /// The code a direction is stored under in the message table.
    pub fn storage_code(&self) -> (r: &'static str)
        ensures
            r@ == (match *self {
                Direction::Send => "send"@,
                Direction::Receive => "recv"@,
            }),
    {
        match self {
            Direction::Send => "send",
            Direction::Receive => "recv",
        }
    }
}

/// How typed text is turned into bytes.
#[allow(non_camel_case_types, clippy::upper_case_acronyms)]
#[derive(Debug, Clone, Copy, PartialEq, Eq, Structural)]
pub enum Encoding {
    GBK,
    UTF8,
    ASCII,
    HEX,
}

impl Encoding {
    /// All encodings, in menu order.
    pub fn all() -> (r: &'static [Encoding])
        ensures
            r@ == seq![Encoding::GBK, Encoding::UTF8, Encoding::ASCII, Encoding::HEX],
    {
        let r: &'static [Encoding] = &[Encoding::GBK, Encoding::UTF8, Encoding::ASCII, Encoding::HEX];
        assert(r@ =~= seq![Encoding::GBK, Encoding::UTF8, Encoding::ASCII, Encoding::HEX]);
        r
    }

    /// Name of the encoding.
    pub fn name(&self) -> (r: &'static str)
        ensures
            r@ == (match *self {
                Encoding::GBK => "GBK"@,
                Encoding::UTF8 => "UTF-8"@,
                Encoding::ASCII => "ASCII"@,
                Encoding::HEX => "HEX"@,
            }),
    {
        match self {
            Encoding::GBK => "GBK",
            Encoding::UTF8 => "UTF-8",
            Encoding::ASCII => "ASCII",
            Encoding::HEX => "HEX",
        }
    }
}

/// A custom quick command.
#[derive(Debug, Clone)]
pub struct QuickCommand {
    pub id: String,
    pub name: String,
    /// JT808 message ID (0 for a complete frame or raw data)
    pub msg_id: u16,
    /// Hex data to send
    pub raw_hex: String,
}

impl QuickCommand {
    /// A new command whose ID is "cmd-" and the lower-case hexadecimal of a
    /// nanosecond timestamp.
    pub fn with_nanos(name: &str, raw_hex: &str, nanos: u128) -> (c: Self)
        ensures
            c.id@ == "cmd-"@ + hex_lower(nanos as nat),
            c.name@ == name@,
            c.raw_hex@ == raw_hex@,
            c.msg_id == 0,
    {
        let mut id = owned("cmd-");
        push_hex_lower(&mut id, nanos);
        QuickCommand { id, name: owned(name), msg_id: 0, raw_hex: owned(raw_hex) }
    }

    /// A new command, its ID taken from the current time.
    pub fn new(name: &str, raw_hex: &str) -> (c: Self)
        ensures
            exists|n: u128| c.id@ == "cmd-"@ + #[trigger] hex_lower(n as nat),
            c.name@ == name@,
            c.raw_hex@ == raw_hex@,
            c.msg_id == 0,
    {
        let nanos = unix_nanos();
        Self::with_nanos(name, raw_hex, nanos)
    }
}

// ---------------------------------------------------------------- re-framing

/// Whether the GBK text fields of a parsed message can be written again.
pub open spec fn reencodable(p: ParsedMessageView) -> bool {
    match p {
        ParsedMessageView::TerminalRegister(r) => TerminalRegister::encodable(r),
        ParsedMessageView::TextMessage(t) => TextMessage::encodable(t),
        _ => true,
    }
}

impl ParsedMessage {
    /// Whether the GBK text fields of the message can be written again.
    pub fn is_reencodable(&self) -> (r: bool)
        ensures
            r == reencodable(self@),
    {
        match self {
            ParsedMessage::TerminalRegister(r) => r.plate_number.as_str().as_bytes().len() <= usize::MAX / 16,
            ParsedMessage::TextMessage(t) => t.text.as_str().as_bytes().len() <= usize::MAX / 16,
            _ => true,
        }
    }
}

/// The body a known message is re-encoded to for a target version and
/// terminal: a register body takes the terminal SN as its terminal id (when
/// one is given), an authentication body fills an empty IMEI or software
/// version from the given ones; unknown bodies have none.
pub open spec fn reencode_spec(
    p: ParsedMessageView,
    version: ProtocolVersion,
    sn: Seq<char>,
    imei: Seq<char>,
    software_version: Seq<char>,
) -> Option<Seq<u8>> {
    match p {
        ParsedMessageView::Heartbeat(_) => Some(Seq::empty()),
        ParsedMessageView::TerminalRegister(r) => Some(
            TerminalRegister::spec_encode(
                TerminalRegisterView {
                    terminal_id: if sn.len() > 0 { sn } else { r.terminal_id },
                    ..r
                },
                version,
            ),
        ),
        ParsedMessageView::TerminalAuth(a) => Some(
            TerminalAuth::spec_encode(
                TerminalAuthView {
                    auth_code: a.auth_code,
                    imei: if a.imei.len() == 0 { imei } else { a.imei },
                    software_version: if a.software_version.len() == 0 {
                        software_version
                    } else {
                        a.software_version
                    },
                },
                version,
            ),
        ),
        ParsedMessageView::TerminalGeneralResponse(r) => Some(TerminalGeneralResponse::spec_encode(r, version)),
        ParsedMessageView::PlatformGeneralResponse(r) => Some(PlatformGeneralResponse::spec_encode(r, version)),
        ParsedMessageView::RegisterResponse(r) => Some(RegisterResponse::spec_encode(r, version)),
        ParsedMessageView::LocationReport(r) => Some(LocationReport::spec_encode(r, version)),
        ParsedMessageView::ParameterSet(r) => Some(ParameterSet::spec_encode(r, version)),
        ParsedMessageView::TextMessage(r) => Some(TextMessage::spec_encode(r, version)),
        ParsedMessageView::VehicleControl(r) => Some(VehicleControl::spec_encode(r, version)),
        ParsedMessageView::QueryTerminalAttrResponse(r) => Some(QueryTerminalAttrResponse::spec_encode(r, version)),
        ParsedMessageView::Unknown { .. } => None,
    }
}

/// Re-encodes a parsed body for a target version (used to re-frame quick
/// commands for the current version and terminal SN). None for unknown
/// bodies, which the caller keeps as they are.
pub fn reencode_known_body(
    parsed: &ParsedMessage,
    version: ProtocolVersion,
    sn: &str,
    imei: &str,
    software_version: &str,
) -> (r: Option<Vec<u8>>)
    requires
        reencodable(parsed@),
    ensures
        match r {
            Some(b) => reencode_spec(parsed@, version, sn@, imei@, software_version@) == Some(b@),
            None => reencode_spec(parsed@, version, sn@, imei@, software_version@) is None,
        },
{
    match parsed {
        ParsedMessage::Heartbeat(_) => Some(Vec::new()),
        ParsedMessage::TerminalRegister(r) => {
            let reg = TerminalRegister {
                province_id: r.province_id,
                city_id: r.city_id,
                manufacturer_id: r.manufacturer_id.clone(),
                terminal_model: r.terminal_model.clone(),
                terminal_id: if !sn.is_empty() {
                    owned(sn)
                } else {
                    r.terminal_id.clone()
                },
                color: r.color,
                plate_number: r.plate_number.clone(),
            };
            Some(reg.encode(version))
        },
        ParsedMessage::TerminalAuth(a) => {
            let auth = TerminalAuth {
                auth_code: a.auth_code.clone(),
                imei: if a.imei.as_str().is_empty() {
                    owned(imei)
                } else {
                    a.imei.clone()
                },
                software_version: if a.software_version.as_str().is_empty() {
                    owned(software_version)
                } else {
                    a.software_version.clone()
                },
            };
            Some(auth.encode(version))
        },
        ParsedMessage::TerminalGeneralResponse(r) => Some(r.encode(version)),
        ParsedMessage::PlatformGeneralResponse(r) => Some(r.encode(version)),
        ParsedMessage::RegisterResponse(r) => Some(r.encode(version)),
        ParsedMessage::LocationReport(r) => Some(r.encode(version)),
        ParsedMessage::ParameterSet(p) => Some(p.encode(version)),
        ParsedMessage::TextMessage(t) => Some(t.encode(version)),
        ParsedMessage::VehicleControl(v) => Some(v.encode(version)),
        ParsedMessage::QueryTerminalAttrResponse(a) => Some(a.encode(version)),
        ParsedMessage::Unknown { .. } => None,
    }
}

/// The protocol version a decoded header shows.
pub open spec fn header_version(v: Option<u8>) -> ProtocolVersion {
    if v is Some {
        ProtocolVersion::V2019
    } else {
        ProtocolVersion::V2013
    }
}

/// What `reframe_quick_command` gives back: for a complete frame, its
/// message ID and its body re-encoded for the target version and terminal
/// (kept as it is when the body is unknown, or when its GBK text is too long
/// to be written again); nothing for anything else.
pub open spec fn reframe_spec(
    bytes: Seq<u8>,
    version: ProtocolVersion,
    sn: Seq<char>,
    imei: Seq<char>,
    software_version: Seq<char>,
) -> Option<(u16, Seq<u8>)> {
    if bytes.len() == 0 || bytes[0] != DELIMITER {
        None
    } else {
        match decode_spec(bytes) {
            None => None,
            Some((msg, _)) => match parse_header_spec(msg) {
                None => None,
                Some((h, hl)) => {
                    let body = msg.skip(hl);
                    let parsed = parse_spec(header_version(h.version), h.msg_id, body);
                    if !reencodable(parsed) {
                        Some((h.msg_id, body))
                    } else {
                        match reencode_spec(parsed, version, sn, imei, software_version) {
                            Some(b) => Some((h.msg_id, b)),
                            None => Some((h.msg_id, body)),
                        }
                    }
                },
            },
        }
    }
}

/// Re-frames a quick command for a target version and terminal SN: for a
/// complete frame, gives back its message ID and new body; none for data
/// that is not a frame (the caller sends it as it is).
pub fn reframe_quick_command(
    bytes: &[u8],
    version: ProtocolVersion,
    sn: &str,
    imei: &str,
    software_version: &str,
) -> (r: Option<(u16, Vec<u8>)>)
    requires
        gbk_len_ok(bytes@.len() as int),
    ensures
        match r {
            Some((id, b)) => reframe_spec(bytes@, version, sn@, imei@, software_version@) == Some(
                (id, b@),
            ),
            None => reframe_spec(bytes@, version, sn@, imei@, software_version@) is None,
        },
{
    if bytes.len() == 0 || bytes[0] != DELIMITER {
        return None;
    }
    proof {
        lemma_decode_len(bytes@);
    }
    let (msg, _rest) = match decode_message(bytes) {
        Some(x) => x,
        None => return None,
    };
    let (header, header_len) = match MsgHeader::decode(msg.as_slice()) {
        Ok(x) => x,
        Err(_) => return None,
    };
    let body = vstd::slice::slice_subrange(msg.as_slice(), header_len, msg.len());
    assert(body@ =~= msg@.skip(header_len as int));
    let parsed = parse_message(header.protocol_version(), header.msg_id, body);
    if !parsed.is_reencodable() {
        return Some((header.msg_id, vstd::slice::slice_to_vec(body)));
    }
    let new_body = match reencode_known_body(&parsed, version, sn, imei, software_version) {
        Some(b) => b,
        None => vstd::slice::slice_to_vec(body),
    };
    Some((header.msg_id, new_body))
}

// ---------------------------------------------------------------- hex text

/// Bytes as upper-case hexadecimal pairs separated by single spaces.
pub open spec fn hex_dump_spec(d: Seq<u8>) -> Seq<char>
    decreases d.len(),
{
    if d.len() == 0 {
        Seq::empty()
    } else if d.len() == 1 {
        hex_byte_upper(d[0])
    } else {
        hex_dump_spec(d.drop_last()) + " "@ + hex_byte_upper(d.last())
    }
}

/// Bytes as upper-case hexadecimal pairs separated by single spaces, e.g.
/// "7E 00 02".
pub fn hex_dump(data: &[u8]) -> (s: String)
    ensures
        s@ == hex_dump_spec(data@),
{
    let mut s = String::new();
    let mut i: usize = 0;
    while i < data.len()
        invariant
            i <= data@.len(),
            s@ == hex_dump_spec(data@.take(i as int)),
        decreases data.len() - i,
    {
        proof {
            assert(data@.take(i as int + 1).drop_last() =~= data@.take(i as int));
            reveal_strlit(" ");
        }
        if i > 0 {
            push_str(&mut s, " ");
        }
        push_hex_u8(&mut s, data[i]);
        i = i + 1;
        proof {
            if i == 1 {
                assert(data@.take(0) =~= Seq::<u8>::empty());
            }
        }
        assert(s@ =~= hex_dump_spec(data@.take(i as int)));
    }
    assert(data@.take(i as int) =~= data@);
    s
}

/// Whether a byte is removed from hex text before it is read: spaces and
/// commas, and line breaks when asked.
pub open spec fn is_hex_separator(b: u8, drop_newlines: bool) -> bool {
    b == 0x20 || b == 0x2C || (drop_newlines && (b == 0x0A || b == 0x0D))
}

/// The bytes of hex text without separators.
pub open spec fn clean_hex_text(b: Seq<u8>, drop_newlines: bool) -> Seq<u8>
    decreases b.len(),
{
    if b.len() == 0 {
        Seq::empty()
    } else {
        let r = clean_hex_text(b.drop_last(), drop_newlines);
        if is_hex_separator(b.last(), drop_newlines) {
            r
        } else {
            r.push(b.last())
        }
    }
}

/// A character boundary of UTF-8 text: the ends, or a byte that does not
/// continue a character.
pub open spec fn is_boundary(b: Seq<u8>, i: int) -> bool {
    i == 0 || i == b.len() || (0 < i < b.len() && !(0x80 <= b[i] <= 0xBF))
}

/// Whether every byte is an ASCII hexadecimal digit.
pub open spec fn all_hex_bytes(b: Seq<u8>) -> bool {
    forall|i: int| 0 <= i < b.len() ==> is_hex_byte(#[trigger] b[i])
}

/// The value of a run of hexadecimal digits.
pub open spec fn hex_digits_value(b: Seq<u8>) -> nat
    decreases b.len(),
{
    if b.len() == 0 {
        0
    } else {
        hex_digits_value(b.drop_last()) * 16 + hex_value(b.last()) as nat
    }
}

/// The number `from_str_radix(_, 16)` reads from text: an optional '+',
/// then one or more hexadecimal digits.
pub open spec fn radix16_value(b: Seq<u8>) -> Option<nat> {
    let d = if b.len() > 1 && b[0] == 0x2B {
        b.skip(1)
    } else {
        b
    };
    if d.len() > 0 && all_hex_bytes(d) {
        Some(hex_digits_value(d))
    } else {
        None
    }
}

/// What `u8::from_str_radix(_, 16)` reads from text: a number that fits in
/// 8 bits.
pub open spec fn radix16_u8(b: Seq<u8>) -> Option<u8> {
    match radix16_value(b) {
        Some(v) => if v <= 0xFF {
            Some(v as u8)
        } else {
            None
        },
        None => None,
    }
}

/// What `u16::from_str_radix(_, 16)` reads from text: a number that fits
/// in 16 bits.
pub open spec fn radix16_u16(b: Seq<u8>) -> Option<u16> {
    match radix16_value(b) {
        Some(v) => if v <= 0xFFFF {
            Some(v as u16)
        } else {
            None
        },
        None => None,
    }
}

/// Reads text as a hexadecimal byte (`u8::from_str_radix(_, 16)`).
#[verifier::external_body]
fn u8_from_hex_str(t: &str) -> (r: Option<u8>)
    ensures
        r == radix16_u8(encode_utf8(t@)),
{
    u8::from_str_radix(t, 16).ok()
}

/// Reads text as a hexadecimal `u16` (`u16::from_str_radix(_, 16)`).
#[verifier::external_body]
fn u16_from_hex_str(t: &str) -> (r: Option<u16>)
    ensures
        r == radix16_u16(encode_utf8(t@)),
{
    u16::from_str_radix(t, 16).ok()
}

/// Bytes below 0x80 are UTF-8 text.
proof fn lemma_ascii_bytes_valid(b: Seq<u8>)
    requires
        forall|i: int| 0 <= i < b.len() ==> #[trigger] b[i] < 0x80,
    ensures
        valid_utf8(b),
{
    let chars = Seq::new(b.len(), |i: int| b[i] as char);
    assert forall|i: int| 0 <= i < chars.len() implies '\0' <= #[trigger] chars[i] <= '\u{7f}' by {
        assert((b[i] as char) as u32 == b[i] as u32);
    }
    vstd::utf8::is_ascii_chars_encode_utf8(chars);
    assert forall|i: int| 0 <= i < b.len() implies #[trigger] encode_utf8(chars)[i] == b[i] by {
        assert(chars[i] as u8 == encode_utf8(chars)[i]);
        assert((b[i] as char) as u32 == b[i] as u32);
    }
    assert(encode_utf8(chars) =~= b);
    vstd::utf8::encode_utf8_valid_utf8(chars);
}

/// Text that reads as a hexadecimal number is UTF-8 text.
proof fn lemma_number_text_valid(b: Seq<u8>)
    requires
        radix16_value(b) is Some,
    ensures
        valid_utf8(b),
{
    let d = if b.len() > 1 && b[0] == 0x2B {
        b.skip(1)
    } else {
        b
    };
    assert forall|i: int| 0 <= i < b.len() implies #[trigger] b[i] < 0x80 by {
        if b.len() > 1 && b[0] == 0x2B {
            if i > 0 {
                assert(b[i] == d[i - 1]);
                assert(is_hex_byte(d[i - 1]));
            }
        } else {
            assert(is_hex_byte(d[i]));
        }
    }
    lemma_ascii_bytes_valid(b);
}

/// Reads text bytes as a hexadecimal byte; bytes that are not UTF-8 text
/// are no number.
fn byte_from_hex_bytes(b: &[u8]) -> (r: Option<u8>)
    ensures
        r == radix16_u8(b@),
{
    match utf8_str(b) {
        Some(t) => u8_from_hex_str(t),
        None => {
            proof {
                if radix16_value(b@) is Some {
                    lemma_number_text_valid(b@);
                }
            }
            None
        },
    }
}

/// Reads text bytes as a hexadecimal `u16`; bytes that are not UTF-8 text
/// are no number.
fn u16_from_hex_bytes(b: &[u8]) -> (r: Option<u16>)
    ensures
        r == radix16_u16(b@),
{
    match utf8_str(b) {
        Some(t) => u16_from_hex_str(t),
        None => {
            proof {
                if radix16_value(b@) is Some {
                    lemma_number_text_valid(b@);
                }
            }
            None
        },
    }
}

/// What reading hex text pair by pair gives.
pub enum HexInput {
    /// The bytes read
    Bytes(Vec<u8>),
    /// A pair that is not a hexadecimal number
    Invalid,
    /// A pair that cannot be cut from the text (an odd count of bytes, or a
    /// cut inside a character); reading such text cannot go on
    Unreadable,
}

/// Plain values of a hex reading.
pub enum HexInputView {
    Bytes(Seq<u8>),
    Invalid,
    Unreadable,
}

impl View for HexInput {
    type V = HexInputView;

    open spec fn view(&self) -> HexInputView {
        match self {
            HexInput::Bytes(b) => HexInputView::Bytes(b@),
            HexInput::Invalid => HexInputView::Invalid,
            HexInput::Unreadable => HexInputView::Unreadable,
        }
    }
}

/// Reads `b` from `i` on, two bytes at a time, stopping at the first pair
/// that is not a number or cannot be cut.
pub open spec fn hex_pairs(b: Seq<u8>, i: int) -> HexInputView
    decreases b.len() - i,
{
    if i < 0 || i >= b.len() {
        HexInputView::Bytes(Seq::empty())
    } else if i + 2 > b.len() || !is_boundary(b, i) || !is_boundary(b, i + 2) {
        HexInputView::Unreadable
    } else {
        match radix16_u8(b.subrange(i, i + 2)) {
            None => HexInputView::Invalid,
            Some(v) => match hex_pairs(b, i + 2) {
                HexInputView::Bytes(r) => HexInputView::Bytes(seq![v] + r),
                other => other,
            },
        }
    }
}

fn clean_hex_bytes(b: &[u8], drop_newlines: bool) -> (out: Vec<u8>)
    ensures
        out@ == clean_hex_text(b@, drop_newlines),
{
    let mut out: Vec<u8> = Vec::new();
    let mut i: usize = 0;
    while i < b.len()
        invariant
            i <= b@.len(),
            out@ == clean_hex_text(b@.take(i as int), drop_newlines),
        decreases b.len() - i,
    {
        let c = b[i];
        proof {
            assert(b@.take(i as int + 1).drop_last() =~= b@.take(i as int));
        }
        if !(c == 0x20 || c == 0x2C || (drop_newlines && (c == 0x0A || c == 0x0D))) {
            out.push(c);
        }
        i = i + 1;
    }
    assert(b@.take(i as int) =~= b@);
    out
}

/// Reads hex text two characters at a time after removing spaces and
/// commas (and line breaks when asked).
pub fn parse_hex_text(text: &str, drop_newlines: bool) -> (r: HexInput)
    ensures
        r@ == hex_pairs(clean_hex_text(encode_utf8(text@), drop_newlines), 0),
{
    let clean = clean_hex_bytes(text.as_bytes(), drop_newlines);
    let b = clean.as_slice();
    let ghost cb = b@;
    assert(cb == clean_hex_text(encode_utf8(text@), drop_newlines));
    let mut out: Vec<u8> = Vec::new();
    let mut i: usize = 0;
    while i < b.len()
        invariant
            i <= cb.len(),
            b@ == cb,
            cb == clean_hex_text(encode_utf8(text@), drop_newlines),
            i % 2 == 0,
            hex_pairs(cb, 0) == (match hex_pairs(cb, i as int) {
                HexInputView::Bytes(r) => HexInputView::Bytes(out@ + r),
                other => other,
            }),
        decreases b.len() - i,
    {
        if b.len() - i < 2 {
            assert(hex_pairs(cb, i as int) == HexInputView::Unreadable);
            assert(hex_pairs(cb, 0) == HexInputView::Unreadable);
            return HexInput::Unreadable;
        }
        let bi = if i == 0 { true } else { !(0x80 <= b[i] && b[i] <= 0xBF) };
        let bj = if i + 2 == b.len() { true } else { !(0x80 <= b[i + 2] && b[i + 2] <= 0xBF) };
        if !bi || !bj {
            assert(!is_boundary(cb, i as int) || !is_boundary(cb, i + 2));
            assert(hex_pairs(cb, i as int) == HexInputView::Unreadable);
            assert(hex_pairs(cb, 0) == HexInputView::Unreadable);
            return HexInput::Unreadable;
        }
        let pair = vstd::slice::slice_subrange(b, i, i + 2);
        match byte_from_hex_bytes(pair) {
            None => {
                return HexInput::Invalid;
            },
            Some(v) => {
                proof {
                    match hex_pairs(cb, i + 2) {
                        HexInputView::Bytes(r) => {
                            assert(out@.push(v) + r =~= out@ + (seq![v] + r));
                        },
                        _ => {},
                    }
                }
                out.push(v);
            },
        }
        i = i + 2;
    }
    proof {
        assert(out@ + Seq::<u8>::empty() =~= out@);
    }
    HexInput::Bytes(out)
}

// ---------------------------------------------------------------- quick commands

proof fn lemma_clean_hex_len(b: Seq<u8>, drop_newlines: bool)
    ensures
        clean_hex_text(b, drop_newlines).len() <= b.len(),
    decreases b.len(),
{
    if b.len() > 0 {
        lemma_clean_hex_len(b.drop_last(), drop_newlines);
    }
}

proof fn lemma_hex_pairs_len(b: Seq<u8>, i: int)
    requires
        0 <= i,
    ensures
        hex_pairs(b, i) matches HexInputView::Bytes(r) ==> r.len() == 0 || r.len() + i <= b.len(),
    decreases b.len() - i,
{
    if i < b.len() && i + 2 <= b.len() && is_boundary(b, i) && is_boundary(b, i + 2) {
        lemma_hex_pairs_len(b, i + 2);
    }
}

/// What the hex text of a quick command reads as: line breaks, spaces and
/// commas removed, then two characters at a time.
pub open spec fn quick_hex_bytes(raw_hex: Seq<char>) -> HexInputView {
    hex_pairs(clean_hex_text(encode_utf8(raw_hex), true), 0)
}

/// What a quick command asks to send.
pub enum QuickSend {
    /// Its hex text has a pair that is not a hexadecimal number
    InvalidHex,
    /// Its hex text holds no bytes: nothing is sent
    Empty,
    /// Bytes sent as they are
    Raw(Vec<u8>),
    /// A body framed under a message ID with the connection's next serial
    /// number
    Frame(u16, Vec<u8>),
}

/// Plain values of a quick-command plan.
pub enum QuickSendView {
    InvalidHex,
    Empty,
    Raw(Seq<u8>),
    Frame(u16, Seq<u8>),
}

impl View for QuickSend {
    type V = QuickSendView;

    open spec fn view(&self) -> QuickSendView {
        match self {
            QuickSend::InvalidHex => QuickSendView::InvalidHex,
            QuickSend::Empty => QuickSendView::Empty,
            QuickSend::Raw(b) => QuickSendView::Raw(b@),
            QuickSend::Frame(id, b) => QuickSendView::Frame(*id, b@),
        }
    }
}

/// What a quick command sends on a connection of a given protocol version
/// and terminal: generic TCP sends the bytes as they are; a command with a
/// message ID frames its bytes as the body; a complete frame is re-framed
/// for the version and terminal; other bytes go as they are.
pub open spec fn quick_send_spec(
    raw_hex: Seq<char>,
    msg_id: u16,
    version: ProtocolVersion,
    sn: Seq<char>,
    imei: Seq<char>,
    software_version: Seq<char>,
) -> QuickSendView {
    match quick_hex_bytes(raw_hex) {
        HexInputView::Bytes(b) => if b.len() == 0 {
            QuickSendView::Empty
        } else if version == ProtocolVersion::GenericTcp {
            QuickSendView::Raw(b)
        } else if msg_id != 0 {
            QuickSendView::Frame(msg_id, b)
        } else {
            match reframe_spec(b, version, sn, imei, software_version) {
                Some((id, body)) => QuickSendView::Frame(id, body),
                None => QuickSendView::Raw(b),
            }
        },
        _ => QuickSendView::InvalidHex,
    }
}

impl QuickCommand {
    /// What this command sends on a connection of the given protocol
    /// version, terminal SN, IMEI and software version.
    pub fn plan(
        &self,
        version: ProtocolVersion,
        sn: &str,
        imei: &str,
        software_version: &str,
    ) -> (r: QuickSend)
        requires
            !(quick_hex_bytes(self.raw_hex@) is Unreadable),
            gbk_len_ok(encode_utf8(self.raw_hex@).len() as int),
        ensures
            r@ == quick_send_spec(self.raw_hex@, self.msg_id, version, sn@, imei@, software_version@),
    {
        let bytes = match parse_hex_text(self.raw_hex.as_str(), true) {
            HexInput::Bytes(b) => b,
            _ => return QuickSend::InvalidHex,
        };
        if bytes.len() == 0 {
            return QuickSend::Empty;
        }
        if version.is_generic() {
            return QuickSend::Raw(bytes);
        }
        if self.msg_id != 0 {
            return QuickSend::Frame(self.msg_id, bytes);
        }
        proof {
            let t = encode_utf8(self.raw_hex@);
            lemma_clean_hex_len(t, true);
            lemma_hex_pairs_len(clean_hex_text(t, true), 0);
        }
        match reframe_quick_command(bytes.as_slice(), version, sn, imei, software_version) {
            Some((id, body)) => QuickSend::Frame(id, body),
            None => QuickSend::Raw(bytes),
        }
    }

    /// The notice shown when the hex text of this command is not hex.
    pub fn hex_error_notice(&self) -> (s: String)
        ensures
            s@ == "⚠️ 快捷指令 ["@ + self.name@ + "] HEX 格式错误"@,
    {
        let mut s = owned("⚠️ 快捷指令 [");
        push_str(&mut s, self.name.as_str());
        push_str(&mut s, "] HEX 格式错误");
        s
    }
}

// ---------------------------------------------------------------- general response

/// Why no general response can be sent for the selected message.
#[derive(Debug, Clone, Copy, PartialEq, Eq, Structural)]
pub enum AckRefusal {
    /// No received message is selected
    NothingSelected,
    /// The selected message is not a frame
    NotJt808,
    /// The frame does not decode (bad checksum)
    DecodeFailed,
    /// The frame's header does not decode; nothing is reported
    BadHeader,
}

impl AckRefusal {
    /// The notice shown to the user, if any.
    pub fn notice(&self) -> (r: Option<&'static str>)
        ensures
            match *self {
                AckRefusal::NothingSelected => r matches Some(t) && t@
                    == "⚠️ 请先在报文流中选中一条接收报文，再发送通用应答"@,
                AckRefusal::NotJt808 => r matches Some(t) && t@ == "⚠️ 选中的报文不是有效的 JT808 帧"@,
                AckRefusal::DecodeFailed => r matches Some(t) && t@
                    == "⚠️ 选中的报文解析失败（校验码错误？）"@,
                AckRefusal::BadHeader => r is None,
            },
    {
        match self {
            AckRefusal::NothingSelected => Some("⚠️ 请先在报文流中选中一条接收报文，再发送通用应答"),
            AckRefusal::NotJt808 => Some("⚠️ 选中的报文不是有效的 JT808 帧"),
            AckRefusal::DecodeFailed => Some("⚠️ 选中的报文解析失败（校验码错误？）"),
            AckRefusal::BadHeader => None,
        }
    }
}

/// The general response (0x0001) to a selected received message: it
/// answers the frame's serial number and message ID with result 0.
pub open spec fn ack_spec(selected: Option<Seq<u8>>) -> Result<TerminalGeneralResponse, AckRefusal> {
    match selected {
        None => Err(AckRefusal::NothingSelected),
        Some(raw) => if raw.len() == 0 || raw[0] != DELIMITER {
            Err(AckRefusal::NotJt808)
        } else {
            match decode_spec(raw) {
                None => Err(AckRefusal::DecodeFailed),
                Some((m, _)) => match parse_header_spec(m) {
                    None => Err(AckRefusal::BadHeader),
                    Some((h, _)) => Ok(
                        TerminalGeneralResponse {
                            response_serial_no: h.serial_no,
                            response_msg_id: h.msg_id,
                            result: 0,
                        },
                    ),
                },
            }
        },
    }
}

/// The general response body to send for the selected received message
/// (its raw bytes), or why there is none.
pub fn general_response_for(selected: Option<&[u8]>) -> (r: Result<
    TerminalGeneralResponse,
    AckRefusal,
>)
    ensures
        r == ack_spec(
            match selected {
                Some(b) => Some(b@),
                None => None,
            },
        ),
{
    let raw = match selected {
        Some(b) => b,
        None => return Err(AckRefusal::NothingSelected),
    };
    if raw.len() == 0 || raw[0] != DELIMITER {
        return Err(AckRefusal::NotJt808);
    }
    let (msg, _rest) = match decode_message(raw) {
        Some(x) => x,
        None => return Err(AckRefusal::DecodeFailed),
    };
    match MsgHeader::decode(msg.as_slice()) {
        Ok((header, _)) => Ok(
            TerminalGeneralResponse {
                response_serial_no: header.serial_no,
                response_msg_id: header.msg_id,
                result: 0,
            },
        ),
        Err(_) => Err(AckRefusal::BadHeader),
    }
}

// ---------------------------------------------------------------- received data

/// What a received chunk shows: on a generic TCP connection nothing is
/// parsed; a frame whose header decodes is parsed by the version its header
/// shows, which is also the version it reports; anything else is shown as
/// it is, with no version.
pub open spec fn received_spec(data: Seq<u8>, conn_version: ProtocolVersion) -> (
    Option<ParsedMessageView>,
    Option<ProtocolVersion>,
) {
    if conn_version == ProtocolVersion::GenericTcp {
        (None, Some(ProtocolVersion::GenericTcp))
    } else if data.len() == 0 || data[0] != DELIMITER {
        (None, None)
    } else {
        match decode_spec(data) {
            None => (None, None),
            Some((m, _)) => match parse_header_spec(m) {
                None => (None, None),
                Some((h, hl)) => {
                    let v = header_version(h.version);
                    (Some(parse_spec(v, h.msg_id, m.skip(hl))), Some(v))
                },
            },
        }
    }
}

/// Parses a received chunk on a connection of the given protocol version:
/// the parsed message, if any, and the version the chunk shows.
pub fn analyze_received(data: &[u8], conn_version: ProtocolVersion) -> (r: (
    Option<ParsedMessage>,
    Option<ProtocolVersion>,
))
    requires
        gbk_len_ok(data@.len() as int),
    ensures
        received_spec(data@, conn_version) == (
            match r.0 {
                Some(p) => Some(p@),
                None => None,
            },
            r.1,
        ),
{
    if conn_version.is_generic() {
        return (None, Some(ProtocolVersion::GenericTcp));
    }
    if data.len() == 0 || data[0] != DELIMITER {
        return (None, None);
    }
    proof {
        lemma_decode_len(data@);
    }
    let (msg, _rest) = match decode_message(data) {
        Some(x) => x,
        None => return (None, None),
    };
    let (header, header_len) = match MsgHeader::decode(msg.as_slice()) {
        Ok(x) => x,
        Err(_) => return (None, None),
    };
    let body = vstd::slice::slice_subrange(msg.as_slice(), header_len, msg.len());
    assert(body@ =~= msg@.skip(header_len as int));
    let version = header.protocol_version();
    (Some(parse_message(version, header.msg_id, body)), Some(version))
}

/// The authentication code to answer with: that of a register response
/// with result 0.
pub open spec fn auth_code_spec(parsed: Option<ParsedMessageView>) -> Option<Seq<char>> {
    match parsed {
        Some(ParsedMessageView::RegisterResponse(r)) => if r.result == 0 {
            Some(r.auth_code)
        } else {
            None
        },
        _ => None,
    }
}

/// The authentication code a received message asks to authenticate with:
/// that of a successful register response.
pub fn auth_code_to_send(parsed: &Option<ParsedMessage>) -> (r: Option<String>)
    ensures
        auth_code_spec(
            match parsed {
                Some(p) => Some(p@),
                None => None,
            },
        ) == match r {
            Some(s) => Some(s@),
            None => None::<Seq<char>>,
        },
{
    match parsed {
        Some(ParsedMessage::RegisterResponse(resp)) => {
            if resp.result == 0 {
                Some(resp.auth_code.clone())
            } else {
                None
            }
        },
        _ => None,
    }
}

/// Whether a connection configured with `configured` (none when the
/// connection is not listed) switches to a detected version.
pub fn version_switch_needed(configured: Option<ProtocolVersion>, detected: ProtocolVersion) -> (r:
    bool)
    ensures
        r == (configured matches Some(c) && c != detected),
{
    match configured {
        Some(c) => c != detected,
        None => false,
    }
}

/// The notice shown when a received header switches the protocol version.
pub fn version_switch_notice(version: ProtocolVersion) -> (s: String)
    ensures
        s@ == "ℹ️ 报文头 bit14 指示协议版本为 "@ + version_name(version) + "，已自动切换并传递到后续发送"@,
{
    let mut s = owned("ℹ️ 报文头 bit14 指示协议版本为 ");
    push_str(&mut s, version.name());
    push_str(&mut s, "，已自动切换并传递到后续发送");
    s
}

// ---------------------------------------------------------------- laws

proof fn lemma_frame_starts_with_delimiter(
    version: ProtocolVersion,
    msg_id: u16,
    sn: Seq<char>,
    serial_no: u16,
    body: Seq<u8>,
)
    ensures
        build_frame_spec(version, msg_id, sn, serial_no, body).len() > 0,
        build_frame_spec(version, msg_id, sn, serial_no, body)[0] == DELIMITER,
{
    let m = header_bytes(frame_header_view(version, msg_id, sn, serial_no, body.len())) + body;
    let e = escape_spec(m.push(xor_all(m)));
    assert((seq![DELIMITER] + e + seq![DELIMITER])[0] == DELIMITER);
}

/// A general response to a frame built by this library answers that
/// frame's serial number and message ID, with result 0.
pub proof fn law_general_response_answers_frame(
    version: ProtocolVersion,
    msg_id: u16,
    sn: Seq<char>,
    serial_no: u16,
    body: Seq<u8>,
)
    ensures
        ack_spec(Some(build_frame_spec(version, msg_id, sn, serial_no, body))) == Ok::<
            TerminalGeneralResponse,
            AckRefusal,
        >(TerminalGeneralResponse { response_serial_no: serial_no, response_msg_id: msg_id, result: 0 }),
{
    lemma_frame_starts_with_delimiter(version, msg_id, sn, serial_no, body);
    law_build_frame_roundtrip(version, msg_id, sn, serial_no, body);
}

/// On a JT808 connection, a received frame is parsed by the version its
/// header shows, whatever version the connection was set to: a frame built
/// for a JT808 version reads back as that version, with its message ID and
/// body.
pub proof fn law_received_version_follows_header(
    conn_version: ProtocolVersion,
    version: ProtocolVersion,
    msg_id: u16,
    sn: Seq<char>,
    serial_no: u16,
    body: Seq<u8>,
)
    requires
        conn_version != ProtocolVersion::GenericTcp,
        version != ProtocolVersion::GenericTcp,
    ensures
        received_spec(build_frame_spec(version, msg_id, sn, serial_no, body), conn_version) == (
            Some(parse_spec(version, msg_id, body)),
            Some(version),
        ),
{
    lemma_frame_starts_with_delimiter(version, msg_id, sn, serial_no, body);
    law_build_frame_roundtrip(version, msg_id, sn, serial_no, body);
}

proof fn lemma_built_frame_reframes(
    from: ProtocolVersion,
    msg_id: u16,
    sn0: Seq<char>,
    serial_no: u16,
    body: Seq<u8>,
    to: ProtocolVersion,
    sn: Seq<char>,
    imei: Seq<char>,
    software_version: Seq<char>,
)
    requires
        from != ProtocolVersion::GenericTcp,
    ensures
        ({
            let parsed = parse_spec(from, msg_id, body);
            reframe_spec(build_frame_spec(from, msg_id, sn0, serial_no, body), to, sn, imei, software_version)
                == if !reencodable(parsed) {
                Some((msg_id, body))
            } else {
                match reencode_spec(parsed, to, sn, imei, software_version) {
                    Some(b) => Some((msg_id, b)),
                    None => Some((msg_id, body)),
                }
            }
        }),
{
    lemma_frame_starts_with_delimiter(from, msg_id, sn0, serial_no, body);
    law_build_frame_roundtrip(from, msg_id, sn0, serial_no, body);
}

/// Re-framing a terminal register frame for another version and terminal
/// SN writes the target SN as the terminal ID of the register body, the
/// other fields kept.
pub proof fn law_reframe_register_uses_target_sn(
    from: ProtocolVersion,
    reg: TerminalRegisterView,
    sn0: Seq<char>,
    serial_no: u16,
    to: ProtocolVersion,
    sn: Seq<char>,
    imei: Seq<char>,
    software_version: Seq<char>,
)
    requires
        from != ProtocolVersion::GenericTcp,
        fits_field(reg.manufacturer_id, register_lengths(from).0 as nat),
        fits_field(reg.terminal_model, register_lengths(from).1 as nat),
        fits_field(reg.terminal_id, register_lengths(from).2 as nat),
        is_ascii_chars(reg.plate_number),
        no_trailing_nul(reg.plate_number),
        gbk_len_ok(encode_utf8(reg.plate_number).len() as int),
        sn.len() > 0,
    ensures
        reframe_spec(
            build_frame_spec(from, 0x0100, sn0, serial_no, TerminalRegister::spec_encode(reg, from)),
            to,
            sn,
            imei,
            software_version,
        ) == Some(
            (
                0x0100u16,
                TerminalRegister::spec_encode(TerminalRegisterView { terminal_id: sn, ..reg }, to),
            ),
        ),
{
    let body = TerminalRegister::spec_encode(reg, from);
    law_register_roundtrip(reg, from);
    lemma_built_frame_reframes(from, 0x0100, sn0, serial_no, body, to, sn, imei, software_version);
}

/// Re-framing a terminal authentication frame for another version keeps
/// its authentication code and fills an empty IMEI and software version
/// from the target terminal's (a 2013 body carries neither).
pub proof fn law_reframe_auth_fills_terminal_fields(
    from: ProtocolVersion,
    auth: TerminalAuthView,
    sn0: Seq<char>,
    serial_no: u16,
    to: ProtocolVersion,
    sn: Seq<char>,
    imei: Seq<char>,
    software_version: Seq<char>,
)
    requires
        from != ProtocolVersion::GenericTcp,
        no_trailing_nul(auth.auth_code),
        from == ProtocolVersion::V2019 ==> encode_utf8(auth.auth_code).len() < 256 && fits_field(
            auth.imei,
            15,
        ) && fits_field(auth.software_version, 20),
    ensures
        ({
            let kept_imei = if from == ProtocolVersion::V2019 { auth.imei } else { Seq::empty() };
            let kept_sw = if from == ProtocolVersion::V2019 {
                auth.software_version
            } else {
                Seq::empty()
            };
            reframe_spec(
                build_frame_spec(from, 0x0102, sn0, serial_no, TerminalAuth::spec_encode(auth, from)),
                to,
                sn,
                imei,
                software_version,
            ) == Some(
                (
                    0x0102u16,
                    TerminalAuth::spec_encode(
                        TerminalAuthView {
                            auth_code: auth.auth_code,
                            imei: if kept_imei.len() == 0 { imei } else { kept_imei },
                            software_version: if kept_sw.len() == 0 { software_version } else { kept_sw },
                        },
                        to,
                    ),
                ),
            )
        }),
{
    let body = TerminalAuth::spec_encode(auth, from);
    law_auth_roundtrip(auth, from);
    lemma_built_frame_reframes(from, 0x0102, sn0, serial_no, body, to, sn, imei, software_version);
}

/// On a generic TCP connection nothing received is parsed.
pub proof fn law_generic_tcp_not_parsed(data: Seq<u8>)
    ensures
        received_spec(data, ProtocolVersion::GenericTcp) == (
            None::<ParsedMessageView>,
            Some(ProtocolVersion::GenericTcp),
        ),
{
}

/// On a generic TCP connection a quick command's bytes are sent as they
/// are, whatever its message ID.
pub proof fn law_generic_tcp_quick_command_raw(
    raw_hex: Seq<char>,
    msg_id: u16,
    sn: Seq<char>,
    imei: Seq<char>,
    software_version: Seq<char>,
)
    requires
        quick_hex_bytes(raw_hex) matches HexInputView::Bytes(b) && b.len() > 0,
    ensures
        quick_hex_bytes(raw_hex) matches HexInputView::Bytes(b) && quick_send_spec(
            raw_hex,
            msg_id,
            ProtocolVersion::GenericTcp,
            sn,
            imei,
            software_version,
        ) == QuickSendView::Raw(b),
{
}

// ---------------------------------------------------------------- typed input

/// The bytes sent for text typed in the send box, or none when the text is
/// blank. The text is trimmed first; as HEX it is read two characters at a
/// time after removing spaces and commas (text that is not hex is sent as
/// its UTF-8 bytes); as GBK it is encoded; as UTF-8 or ASCII it is sent as
/// its UTF-8 bytes.
pub open spec fn input_bytes_spec(text: Seq<char>, encoding: Encoding) -> Option<Seq<u8>> {
    let t = trimmed(text);
    if t.len() == 0 {
        None
    } else {
        match encoding {
            Encoding::HEX => match hex_pairs(clean_hex_text(encode_utf8(t), false), 0) {
                HexInputView::Bytes(b) => Some(b),
                _ => Some(encode_utf8(t)),
            },
            Encoding::GBK => Some(gbk_encoded(t)),
            Encoding::UTF8 => Some(encode_utf8(t)),
            Encoding::ASCII => Some(encode_utf8(t)),
        }
    }
}

/// Turns text typed in the send box into the bytes to send (none for
/// blank text).
pub fn encode_input(text: &str, encoding: Encoding) -> (r: Option<Vec<u8>>)
    requires
        encoding == Encoding::HEX ==> !(hex_pairs(
            clean_hex_text(encode_utf8(trimmed(text@)), false),
            0,
        ) is Unreadable),
        encoding == Encoding::GBK ==> gbk_len_ok(encode_utf8(trimmed(text@)).len() as int),
    ensures
        input_bytes_spec(text@, encoding) == match r {
            Some(b) => Some(b@),
            None => None::<Seq<u8>>,
        },
{
    let t = trim_whitespace(text);
    if t.as_bytes().len() == 0 {
        proof {
            if t@.len() > 0 {
                vstd::utf8::encode_utf8_first_scalar(t@);
            }
        }
        return None;
    }
    proof {
        if t@.len() == 0 {
            assert(encode_utf8(t@).len() == 0);
        }
    }
    match encoding {
        Encoding::HEX => match parse_hex_text(t, false) {
            HexInput::Bytes(b) => Some(b),
            _ => Some(vstd::slice::slice_to_vec(t.as_bytes())),
        },
        Encoding::GBK => Some(gbk_encode(t)),
        Encoding::UTF8 => Some(vstd::slice::slice_to_vec(t.as_bytes())),
        Encoding::ASCII => Some(vstd::slice::slice_to_vec(t.as_bytes())),
    }
}

// ---------------------------------------------------------------- message ID text

/// Bytes without any number of leading copies of the two-byte prefix
/// `p0 p1`.
pub open spec fn strip_pair_prefix(b: Seq<u8>, p0: u8, p1: u8) -> Seq<u8>
    decreases b.len(),
{
    if b.len() >= 2 && b[0] == p0 && b[1] == p1 {
        strip_pair_prefix(b.skip(2), p0, p1)
    } else {
        b
    }
}

fn strip_pair_prefix_bytes(b: &[u8], p0: u8, p1: u8) -> (r: &[u8])
    ensures
        r@ == strip_pair_prefix(b@, p0, p1),
{
    let mut i: usize = 0;
    assert(b@.skip(0) =~= b@);
    while b.len() - i >= 2 && b[i] == p0 && b[i + 1] == p1
        invariant
            i <= b.len(),
            strip_pair_prefix(b@, p0, p1) == strip_pair_prefix(b@.skip(i as int), p0, p1),
        decreases b.len() - i,
    {
        assert(b@.skip(i as int).skip(2) =~= b@.skip(i + 2));
        i = i + 2;
    }
    let r = vstd::slice::slice_subrange(b, i, b.len());
    assert(r@ =~= b@.skip(i as int));
    r
}

/// The message ID typed in the quick-command dialog: trimmed, leading
/// "0x" and then "0X" removed, read as hexadecimal; 0 when empty or not a
/// number.
pub open spec fn msg_id_value(text: Seq<char>) -> u16 {
    let t = strip_pair_prefix(
        strip_pair_prefix(encode_utf8(trimmed(text)), 0x30, 0x78),
        0x30,
        0x58,
    );
    if t.len() == 0 {
        0
    } else {
        match radix16_u16(t) {
            Some(v) => v,
            None => 0,
        }
    }
}

/// Reads the message ID typed in the quick-command dialog.
pub fn parse_msg_id_text(text: &str) -> (id: u16)
    ensures
        id == msg_id_value(text@),
{
    let t = trim_whitespace(text);
    let once = strip_pair_prefix_bytes(t.as_bytes(), 0x30, 0x78);
    let twice = strip_pair_prefix_bytes(once, 0x30, 0x58);
    if twice.len() == 0 {
        0
    } else {
        match u16_from_hex_bytes(twice) {
            Some(v) => v,
            None => 0,
        }
    }
}

/// How a message ID is shown for editing: empty for 0, else four
/// upper-case hexadecimal digits.
pub open spec fn msg_id_display(id: u16) -> Seq<char> {
    if id == 0 {
        Seq::empty()
    } else {
        hex4_upper(id)
    }
}

/// The text a message ID is edited as.
pub fn msg_id_text(id: u16) -> (s: String)
    ensures
        s@ == msg_id_display(id),
{
    let mut s = String::new();
    if id != 0 {
        push_hex_u16(&mut s, id);
    }
    assert(s@ =~= msg_id_display(id));
    s
}

proof fn lemma_upper_digit(v: int)
    requires
        0 <= v < 16,
    ensures
        !is_white_space(hex_digit_upper(v)),
        '\0' <= hex_digit_upper(v) <= '\u{7f}',
        is_hex_byte(hex_digit_upper(v) as u8),
        hex_value(hex_digit_upper(v) as u8) == v,
        hex_digit_upper(v) as u8 != 0x78,
        hex_digit_upper(v) as u8 != 0x58,
        hex_digit_upper(v) as u8 != 0x2B,
{
    if v < 10 {
        assert(((48 + v) as char) as u32 == 48 + v);
    } else {
        assert(((55 + v) as char) as u32 == 55 + v);
    }
}

/// A message ID shown for editing reads back as the same ID.
pub proof fn law_msg_id_text_roundtrip(id: u16)
    ensures
        msg_id_value(msg_id_display(id)) == id,
{
    if id == 0 {
        assert(trimmed(Seq::<char>::empty()) =~= Seq::<char>::empty());
        assert(encode_utf8(Seq::<char>::empty()) =~= Seq::<u8>::empty());
    } else {
        let h = hex4_upper(id);
        let v0 = (id / 4096) as int;
        let v1 = (id / 256 % 16) as int;
        let v2 = (id / 16 % 16) as int;
        let v3 = (id % 16) as int;
        lemma_upper_digit(v0);
        lemma_upper_digit(v1);
        lemma_upper_digit(v2);
        lemma_upper_digit(v3);
        assert(h[0] == hex_digit_upper(v0) && h[1] == hex_digit_upper(v1));
        assert(h[2] == hex_digit_upper(v2) && h[3] == hex_digit_upper(v3));
        assert(trim_start_ws(h) == h);
        assert(trim_end_ws(h) == h);
        assert(is_ascii_chars(h));
        vstd::utf8::is_ascii_chars_encode_utf8(h);
        let e = encode_utf8(h);
        assert(e[0] == h[0] as u8 && e[1] == h[1] as u8 && e[2] == h[2] as u8 && e[3] == h[3] as u8);
        assert(strip_pair_prefix(e, 0x30, 0x78) == e);
        assert(strip_pair_prefix(e, 0x30, 0x58) == e);
        assert(all_hex_bytes(e));
        let e1 = e.drop_last().drop_last().drop_last();
        assert(e1.drop_last() =~= Seq::<u8>::empty());
        assert(e.len() == 4);
        assert(e1.len() == 1);
        assert(e1.last() == e[0]);
        assert(hex_digits_value(e1.drop_last()) == 0);
        assert(hex_value(e[0]) == v0);
        assert(hex_digits_value(e1) == v0);
        assert(hex_digits_value(e.drop_last().drop_last()) == v0 * 16 + v1);
        assert(hex_digits_value(e.drop_last()) == (v0 * 16 + v1) * 16 + v2);
        assert(hex_digits_value(e) == ((v0 * 16 + v1) * 16 + v2) * 16 + v3);
        assert(((v0 * 16 + v1) * 16 + v2) * 16 + v3 == id) by (nonlinear_arith)
            requires
                v0 == id / 4096,
                v1 == id / 256 % 16,
                v2 == id / 16 % 16,
                v3 == id % 16,
                0 <= id < 65536,
        ;
    }
}

// ---------------------------------------------------------------- serial numbers

/// The serial number sent after `current` on a connection: one more.
pub fn next_serial(current: u16) -> (n: u16)
    requires
        current < 0xFFFF,
    ensures
        n == current + 1,
{
    current + 1
}

// ---------------------------------------------------------------- lists

/// The selected connection after the one at `removed` is deleted: none
/// when it was the one deleted, one lower when it came after it.
pub fn selection_after_delete(selected: Option<usize>, removed: usize) -> (r: Option<usize>)
    ensures
        r == (match selected {
            Some(s) => if s == removed {
                None
            } else if s > removed {
                Some((s - 1) as usize)
            } else {
                Some(s)
            },
            None => None,
        }),
{
    match selected {
        Some(s) => if s == removed {
            None
        } else if s > removed {
            Some(s - 1)
        } else {
            Some(s)
        },
        None => None,
    }
}

// ---------------------------------------------------------------- message stream

/// The line shown for a message in the stream: "[name] description" for a
/// parsed message; else its hex text, cut after 60 bytes with "..." added.
pub open spec fn summary_spec(parsed: Option<ParsedMessageView>, raw_hex: Seq<char>) -> Seq<char> {
    match parsed {
        Some(p) => "["@ + parsed_name(p) + "] "@ + parsed_description(p),
        None => if encode_utf8(raw_hex).len() > 60 {
            decode_utf8(encode_utf8(raw_hex).take(60)) + "..."@
        } else {
            raw_hex
        },
    }
}

/// The line shown for a message in the stream.
pub fn message_summary(parsed: Option<&ParsedMessage>, raw_hex: &str) -> (s: String)
    requires
        parsed is None && encode_utf8(raw_hex@).len() > 60 ==> is_char_boundary(
            encode_utf8(raw_hex@),
            60,
        ),
    ensures
        s@ == summary_spec(
            match parsed {
                Some(p) => Some(p@),
                None => None,
            },
            raw_hex@,
        ),
{
    match parsed {
        Some(p) => {
            let mut s = owned("[");
            push_str(&mut s, p.name());
            push_str(&mut s, "] ");
            let d = p.description();
            push_str(&mut s, d.as_str());
            assert(s@ =~= "["@ + parsed_name(p@) + "] "@ + parsed_description(p@));
            s
        },
        None => {
            if raw_hex.as_bytes().len() > 60 {
                let (head, _) = raw_hex.split_at(60);
                proof {
                    vstd::utf8::encode_utf8_decode_utf8(head@);
                    assert(encode_utf8(raw_hex@).subrange(0, 60) =~= encode_utf8(raw_hex@).take(60));
                }
                let mut s = owned(head);
                push_str(&mut s, "...");
                s
            } else {
                owned(raw_hex)
            }
        },
    }
}

// ---------------------------------------------------------------- export

/// The first line of a CSV export.
pub fn csv_header() -> (s: &'static str)
    ensures
        s@ == "时间,方向,编码,协议,HEX,消息ID,消息名称\n"@,
{
    "时间,方向,编码,协议,HEX,消息ID,消息名称\n"
}

/// One line of a CSV export: time, direction, encoding, protocol, hex,
/// message ID and message name, the last two empty for an unparsed message.
pub open spec fn csv_row_spec(
    time: Seq<char>,
    direction: Direction,
    encoding: Seq<char>,
    protocol: Option<ProtocolVersion>,
    raw_hex: Seq<char>,
    parsed: Option<ParsedMessageView>,
) -> Seq<char> {
    let dir: Seq<char> = match direction {
        Direction::Send => "发送"@,
        Direction::Receive => "接收"@,
    };
    let proto: Seq<char> = match protocol {
        Some(v) => version_short_name(v),
        None => Seq::empty(),
    };
    let (id, name): (Seq<char>, Seq<char>) = match parsed {
        Some(p) => ("0x"@ + hex4_upper(parsed_msg_id(p)), parsed_name(p)),
        None => (Seq::empty(), Seq::empty()),
    };
    time + ","@ + dir + ","@ + encoding + ","@ + proto + ","@ + raw_hex + ","@ + id + ","@ + name
        + "\n"@
}

/// Writes one line of a CSV export; the time is given already formatted.
pub fn csv_row(
    time: &str,
    direction: Direction,
    encoding: &str,
    protocol: Option<ProtocolVersion>,
    raw_hex: &str,
    parsed: Option<&ParsedMessage>,
) -> (s: String)
    ensures
        s@ == csv_row_spec(
            time@,
            direction,
            encoding@,
            protocol,
            raw_hex@,
            match parsed {
                Some(p) => Some(p@),
                None => None,
            },
        ),
{
    let mut s = owned(time);
    push_str(&mut s, ",");
    push_str(&mut s, direction.name());
    push_str(&mut s, ",");
    push_str(&mut s, encoding);
    push_str(&mut s, ",");
    match protocol {
        Some(v) => push_str(&mut s, v.short_name()),
        None => {},
    }
    push_str(&mut s, ",");
    push_str(&mut s, raw_hex);
    push_str(&mut s, ",");
    match parsed {
        Some(p) => {
            push_str(&mut s, "0x");
            push_hex_u16(&mut s, p.msg_id());
        },
        None => {},
    }
    push_str(&mut s, ",");
    match parsed {
        Some(p) => push_str(&mut s, p.name()),
        None => {},
    }
    push_str(&mut s, "\n");
    proof {
        let ghost pv = match parsed {
            Some(p) => Some(p@),
            None => None::<ParsedMessageView>,
        };
        assert(s@ =~= csv_row_spec(time@, direction, encoding@, protocol, raw_hex@, pv));
    }
    s
}

// ---------------------------------------------------------------- fonts

/// Whether a lower-cased font file name names a font with Chinese glyphs:
/// it contains "msyh", "simsun", "simhei", "deng", "yahei" or "source".
pub open spec fn cjk_font_name(lower: Seq<u8>) -> bool {
    ||| contains_run(lower, seq![0x6du8, 0x73, 0x79, 0x68])
    ||| contains_run(lower, seq![0x73u8, 0x69, 0x6d, 0x73, 0x75, 0x6e])
    ||| contains_run(lower, seq![0x73u8, 0x69, 0x6d, 0x68, 0x65, 0x69])
    ||| contains_run(lower, seq![0x64u8, 0x65, 0x6e, 0x67])
    ||| contains_run(lower, seq![0x79u8, 0x61, 0x68, 0x65, 0x69])
    ||| contains_run(lower, seq![0x73u8, 0x6f, 0x75, 0x72, 0x63, 0x65])
}

/// Whether an already lower-cased font file name names a font with
/// Chinese glyphs.
pub fn names_cjk_font(lower: &str) -> (r: bool)
    ensures
        r == cjk_font_name(encode_utf8(lower@)),
{
    let b = lower.as_bytes();
    let msyh: Vec<u8> = vec![0x6du8, 0x73, 0x79, 0x68];
    let simsun: Vec<u8> = vec![0x73u8, 0x69, 0x6d, 0x73, 0x75, 0x6e];
    let simhei: Vec<u8> = vec![0x73u8, 0x69, 0x6d, 0x68, 0x65, 0x69];
    let deng: Vec<u8> = vec![0x64u8, 0x65, 0x6e, 0x67];
    let yahei: Vec<u8> = vec![0x79u8, 0x61, 0x68, 0x65, 0x69];
    let source: Vec<u8> = vec![0x73u8, 0x6f, 0x75, 0x72, 0x63, 0x65];
    assert(msyh@ =~= seq![0x6du8, 0x73, 0x79, 0x68]);
    assert(simsun@ =~= seq![0x73u8, 0x69, 0x6d, 0x73, 0x75, 0x6e]);
    assert(simhei@ =~= seq![0x73u8, 0x69, 0x6d, 0x68, 0x65, 0x69]);
    assert(deng@ =~= seq![0x64u8, 0x65, 0x6e, 0x67]);
    assert(yahei@ =~= seq![0x79u8, 0x61, 0x68, 0x65, 0x69]);
    assert(source@ =~= seq![0x73u8, 0x6f, 0x75, 0x72, 0x63, 0x65]);
    contains_bytes(b, msyh.as_slice()) || contains_bytes(b, simsun.as_slice()) || contains_bytes(
        b,
        simhei.as_slice(),
    ) || contains_bytes(b, deng.as_slice()) || contains_bytes(b, yahei.as_slice())
        || contains_bytes(b, source.as_slice())
}

/// Whether a font file name names a font with Chinese glyphs, any letter
/// case.
pub fn is_cjk_font_name(name: &str) -> (r: bool)
    ensures
        r == cjk_font_name(encode_utf8(unicode_lowercase(name@))),
{
    let lower = to_lowercase(name);
    names_cjk_font(lower.as_str())
}

// ---------------------------------------------------------------- hex text laws

/// Upper-case hexadecimal pairs of bytes, without separators.
pub open spec fn hex_pairs_text(d: Seq<u8>) -> Seq<char>
    decreases d.len(),
{
    if d.len() == 0 {
        Seq::empty()
    } else {
        hex_pairs_text(d.drop_last()) + hex_byte_upper(d.last())
    }
}

proof fn lemma_clean_concat(a: Seq<u8>, b: Seq<u8>, drop_newlines: bool)
    ensures
        clean_hex_text(a + b, drop_newlines) == clean_hex_text(a, drop_newlines) + clean_hex_text(
            b,
            drop_newlines,
        ),
    decreases b.len(),
{
    if b.len() == 0 {
        assert(a + b =~= a);
        assert(clean_hex_text(a, drop_newlines) + Seq::<u8>::empty() =~= clean_hex_text(a, drop_newlines));
    } else {
        assert((a + b).drop_last() =~= a + b.drop_last());
        lemma_clean_concat(a, b.drop_last(), drop_newlines);
        let ca = clean_hex_text(a, drop_newlines);
        let cb = clean_hex_text(b.drop_last(), drop_newlines);
        assert((ca + cb).push(b.last()) =~= ca + cb.push(b.last()));
    }
}

proof fn lemma_byte_pair_bytes(b: u8)
    ensures
        encode_utf8(hex_byte_upper(b)) == seq![
            hex_digit_upper((b / 16) as int) as u8,
            hex_digit_upper((b % 16) as int) as u8,
        ],
        is_ascii_chars(hex_byte_upper(b)),
{
    lemma_upper_digit((b / 16) as int);
    lemma_upper_digit((b % 16) as int);
    let h = hex_byte_upper(b);
    assert(is_ascii_chars(h));
    vstd::utf8::is_ascii_chars_encode_utf8(h);
    assert(encode_utf8(h) =~= seq![h[0] as u8, h[1] as u8]);
}

proof fn lemma_clean_pair(b: u8, drop_newlines: bool)
    ensures
        clean_hex_text(encode_utf8(hex_byte_upper(b)), drop_newlines) == encode_utf8(hex_byte_upper(b)),
{
    lemma_byte_pair_bytes(b);
    lemma_upper_digit((b / 16) as int);
    lemma_upper_digit((b % 16) as int);
    let e = encode_utf8(hex_byte_upper(b));
    let e1 = e.drop_last();
    assert(e1 =~= seq![e[0]]);
    assert(e1.drop_last() =~= Seq::<u8>::empty());
    assert(clean_hex_text(e1.drop_last(), drop_newlines) =~= Seq::<u8>::empty());
    assert(clean_hex_text(e1, drop_newlines) =~= seq![e[0]]);
    assert(clean_hex_text(e, drop_newlines) =~= seq![e[0], e[1]]);
    assert(e =~= seq![e[0], e[1]]);
}

proof fn lemma_clean_dump(d: Seq<u8>, drop_newlines: bool)
    ensures
        clean_hex_text(encode_utf8(hex_dump_spec(d)), drop_newlines) == encode_utf8(hex_pairs_text(d)),
    decreases d.len(),
{
    if d.len() == 0 {
        assert(encode_utf8(Seq::<char>::empty()) =~= Seq::<u8>::empty());
    } else if d.len() == 1 {
        lemma_clean_pair(d[0], drop_newlines);
        assert(d.drop_last() =~= Seq::<u8>::empty());
        assert(hex_pairs_text(d.drop_last()) =~= Seq::<char>::empty());
        assert(hex_pairs_text(d) =~= hex_byte_upper(d[0]));
    } else {
        let dd = d.drop_last();
        lemma_clean_dump(dd, drop_newlines);
        reveal_strlit(" ");
        let sp = " "@;
        assert(is_ascii_chars(sp));
        vstd::utf8::is_ascii_chars_encode_utf8(sp);
        let esp = encode_utf8(sp);
        assert(esp =~= seq![0x20u8]);
        assert(esp.drop_last() =~= Seq::<u8>::empty());
        let front = hex_dump_spec(dd);
        let pair = hex_byte_upper(d.last());
        crate::protocol::text::lemma_encode_utf8_concat(front + sp, pair);
        crate::protocol::text::lemma_encode_utf8_concat(front, sp);
        lemma_clean_concat(encode_utf8(front) + esp, encode_utf8(pair), drop_newlines);
        lemma_clean_concat(encode_utf8(front), esp, drop_newlines);
        lemma_clean_pair(d.last(), drop_newlines);
        crate::protocol::text::lemma_encode_utf8_concat(hex_pairs_text(dd), pair);
        assert(clean_hex_text(esp.drop_last(), drop_newlines) =~= Seq::<u8>::empty());
        assert(clean_hex_text(esp, drop_newlines) =~= Seq::<u8>::empty());
        assert(clean_hex_text(encode_utf8(front), drop_newlines) + Seq::<u8>::empty()
            =~= clean_hex_text(encode_utf8(front), drop_newlines));
    }
}

proof fn lemma_pairs_bytes(d: Seq<u8>)
    ensures
        encode_utf8(hex_pairs_text(d)).len() == 2 * d.len(),
        forall|k: int|
            0 <= k < d.len() ==> {
                &&& #[trigger] encode_utf8(hex_pairs_text(d))[2 * k] == hex_digit_upper((d[k] / 16) as int) as u8
                &&& encode_utf8(hex_pairs_text(d))[2 * k + 1] == hex_digit_upper((d[k] % 16) as int) as u8
            },
    decreases d.len(),
{
    if d.len() > 0 {
        let dd = d.drop_last();
        lemma_pairs_bytes(dd);
        lemma_byte_pair_bytes(d.last());
        crate::protocol::text::lemma_encode_utf8_concat(hex_pairs_text(dd), hex_byte_upper(d.last()));
        let p = encode_utf8(hex_pairs_text(d));
        let pd = encode_utf8(hex_pairs_text(dd));
        assert forall|k: int| 0 <= k < d.len() implies {
            &&& #[trigger] p[2 * k] == hex_digit_upper((d[k] / 16) as int) as u8
            &&& p[2 * k + 1] == hex_digit_upper((d[k] % 16) as int) as u8
        } by {
            if k < dd.len() {
                assert(pd[2 * k] == hex_digit_upper((dd[k] / 16) as int) as u8);
                assert(dd[k] == d[k]);
            }
        }
    } else {
        assert(encode_utf8(Seq::<char>::empty()) =~= Seq::<u8>::empty());
    }
}

proof fn lemma_pairs_read(d: Seq<u8>, k: int)
    requires
        0 <= k <= d.len(),
    ensures
        hex_pairs(encode_utf8(hex_pairs_text(d)), 2 * k) == HexInputView::Bytes(d.skip(k)),
    decreases d.len() - k,
{
    lemma_pairs_bytes(d);
    let p = encode_utf8(hex_pairs_text(d));
    if k == d.len() {
        assert(d.skip(k) =~= Seq::<u8>::empty());
    } else {
        lemma_pairs_read(d, k + 1);
        let x = p[2 * k];
        let y = p[2 * k + 1];
        let hi = (d[k] / 16) as int;
        let lo = (d[k] % 16) as int;
        lemma_upper_digit(hi);
        lemma_upper_digit(lo);
        assert(x == hex_digit_upper(hi) as u8 && y == hex_digit_upper(lo) as u8);
        assert(is_boundary(p, 2 * k)) by {
            if 2 * k > 0 {
                let j = k - 1;
                assert(p[2 * j + 2] == p[2 * k]);
            }
        }
        assert(is_boundary(p, 2 * k + 2)) by {
            if 2 * k + 2 < p.len() {
                assert(p[2 * (k + 1)] == hex_digit_upper((d[k + 1] / 16) as int) as u8);
                lemma_upper_digit((d[k + 1] / 16) as int);
            }
        }
        assert(hex_value(x) * 16 + hex_value(y) == d[k]);
        let sub = p.subrange(2 * k, 2 * k + 2);
        assert(sub =~= seq![x, y]);
        assert(sub.drop_last() =~= seq![x]);
        assert(sub.drop_last().drop_last() =~= Seq::<u8>::empty());
        assert(hex_digits_value(sub.drop_last().drop_last()) == 0);
        assert(sub.drop_last().last() == x);
        assert(all_hex_bytes(sub));
        assert(hex_digits_value(sub.drop_last()) == hex_value(x));
        assert(hex_digits_value(sub) == hex_value(x) * 16 + hex_value(y));
        assert(radix16_u8(sub) == Some(d[k]));
        assert(seq![d[k]] + d.skip(k + 1) =~= d.skip(k));
    }
}

/// Hex text shown for bytes reads back as the same bytes, with or without
/// line breaks removed: a copied message pasted as a quick command or into
/// the send box sends those bytes.
pub proof fn law_hex_dump_reads_back(d: Seq<u8>, drop_newlines: bool)
    ensures
        hex_pairs(clean_hex_text(encode_utf8(hex_dump_spec(d)), drop_newlines), 0) == HexInputView::Bytes(d),
{
    lemma_clean_dump(d, drop_newlines);
    lemma_pairs_read(d, 0);
    assert(d.skip(0) =~= d);
}

} // verus!
