//! Builders of complete JT/T 808 frames, ready to send.

use vstd::prelude::*;

use crate::protocol::bytes::append_bytes;
use crate::protocol::codec::{
    decode_spec, encode_message, frame_spec, law_frame_roundtrip, lemma_escape_len, xor_all,
};
use crate::protocol::message::{
    Jt808Message, LocationReport, LocationReportView, TerminalAuth, TerminalAuthView,
    TerminalRegister, TerminalRegisterView,
};
use crate::protocol::text::{
    duration_secs, duration_subsec_nanos, gbk_len_ok, owned, since_unix_epoch, system_now,
};
use crate::protocol::types::{
    header_as_decoded, header_bytes, law_header_roundtrip, lemma_header_reads, parse_header_spec,
    spec_version_number, BodyProps, HeaderView, MsgHeader, ProtocolVersion,
};

verus! {

/// The header a builder writes: no encryption, no subpackage, the body
/// length cut to 16 bits, a version byte for 2019.
pub open spec fn frame_header_view(
    version: ProtocolVersion,
    msg_id: u16,
    sn: Seq<char>,
    serial_no: u16,
    body_len: nat,
) -> HeaderView {
    HeaderView {
        msg_id,
        body_len: (body_len % 65536) as u16,
        encryption: 0,
        has_subpackage: false,
        terminal_id: sn,
        serial_no,
        subpackage: None,
        version: spec_version_number(version),
    }
}

/// The frame `build_frame` writes.
pub open spec fn build_frame_spec(
    version: ProtocolVersion,
    msg_id: u16,
    sn: Seq<char>,
    serial_no: u16,
    body: Seq<u8>,
) -> Seq<u8> {
    frame_spec(header_bytes(frame_header_view(version, msg_id, sn, serial_no, body.len())) + body)
}

/// Builds a complete frame from protocol version, message ID, terminal SN,
/// serial number and body bytes.
pub fn build_frame(
    version: ProtocolVersion,
    msg_id: u16,
    terminal_phone: &str,
    serial_no: u16,
    body: &[u8],
) -> (frame: Vec<u8>)
    ensures
        frame@ == build_frame_spec(version, msg_id, terminal_phone@, serial_no, body@),
{
    let header = MsgHeader {
        msg_id,
        body_props: BodyProps {
            body_len: (body.len() % 65536) as u16,
            encryption: 0,
            has_subpackage: false,
        },
        terminal_id: owned(terminal_phone),
        serial_no,
        subpackage: None,
        version: version.version_number(),
    };
    assert(header@ == frame_header_view(version, msg_id, terminal_phone@, serial_no, body@.len()));
    let mut hb = header.encode();
    append_bytes(&mut hb, body);
    encode_message(hb.as_slice())
}

/// Builds a heartbeat frame (0x0002).
pub fn build_heartbeat(version: ProtocolVersion, terminal_phone: &str, serial_no: u16) -> (frame: Vec<u8>)
    ensures
        frame@ == build_frame_spec(version, 0x0002, terminal_phone@, serial_no, Seq::empty()),
{
    let empty: Vec<u8> = Vec::new();
    build_frame(version, 0x0002, terminal_phone, serial_no, empty.as_slice())
}

/// Builds a terminal register frame (0x0100).
pub fn build_register(
    version: ProtocolVersion,
    terminal_phone: &str,
    serial_no: u16,
    province_id: u16,
    city_id: u16,
    manufacturer_id: &str,
    terminal_model: &str,
    terminal_id: &str,
    color: u8,
    plate_number: &str,
) -> (frame: Vec<u8>)
    requires
        gbk_len_ok(vstd::utf8::encode_utf8(plate_number@).len() as int),
    ensures
        frame@ == build_frame_spec(
            version,
            0x0100,
            terminal_phone@,
            serial_no,
            TerminalRegister::spec_encode(
                TerminalRegisterView {
                    province_id,
                    city_id,
                    manufacturer_id: manufacturer_id@,
                    terminal_model: terminal_model@,
                    terminal_id: terminal_id@,
                    color,
                    plate_number: plate_number@,
                },
                version,
            ),
        ),
{
    let reg = TerminalRegister {
        province_id,
        city_id,
        manufacturer_id: owned(manufacturer_id),
        terminal_model: owned(terminal_model),
        terminal_id: owned(terminal_id),
        color,
        plate_number: owned(plate_number),
    };
    let body = reg.encode(version);
    build_frame(version, 0x0100, terminal_phone, serial_no, body.as_slice())
}

/// Builds a terminal authentication frame (0x0102): the bare code for 2013,
/// length-prefixed code, IMEI and software version for 2019.
pub fn build_auth(
    version: ProtocolVersion,
    terminal_phone: &str,
    serial_no: u16,
    auth_code: &str,
    imei: &str,
    software_version: &str,
) -> (frame: Vec<u8>)
    ensures
        frame@ == build_frame_spec(
            version,
            0x0102,
            terminal_phone@,
            serial_no,
            TerminalAuth::spec_encode(
                TerminalAuthView {
                    auth_code: auth_code@,
                    imei: imei@,
                    software_version: software_version@,
                },
                version,
            ),
        ),
{
    let auth = TerminalAuth {
        auth_code: owned(auth_code),
        imei: owned(imei),
        software_version: owned(software_version),
    };
    let body = auth.encode(version);
    build_frame(version, 0x0102, terminal_phone, serial_no, body.as_slice())
}

/// The body of a location report without alarm, status or extra items.
pub open spec fn plain_location(
    latitude: u32,
    longitude: u32,
    altitude: u16,
    speed: u16,
    direction: u16,
    timestamp: Seq<char>,
) -> LocationReportView {
    LocationReportView {
        alarm_flags: 0,
        status: 0,
        latitude,
        longitude,
        altitude,
        speed,
        direction,
        timestamp,
        extra_items: Seq::empty(),
    }
}

/// Twelve decimal digits: a `YYMMDDHHMMSS` timestamp.
pub open spec fn is_timestamp_text(t: Seq<char>) -> bool {
    t.len() == 12 && forall|i: int| 0 <= i < 12 ==> '0' <= #[trigger] t[i] <= '9'
}

/// chrono's date and time without a time zone.
#[verifier::external_type_specification]
#[verifier::external_body]
pub struct ExNaiveDateTime(chrono::NaiveDateTime);

/// Seconds from the Unix epoch to the start of the last day chrono can
/// date (262142-12-31, UTC).
pub const LOCAL_TIME_LIMIT: u64 = 8_210_266_790_400;

/// The local wall-clock date and time at a Unix timestamp
/// (`TimeZone::timestamp_opt` on `chrono::Local`, its single result taken
/// as its local date and time). Before the last day of chrono's date range
/// chrono gives one for every nanosecond count below one billion, and
/// taking the local date and time cannot overflow. The local offset comes
/// from the system's time-zone data, which chrono expects to give one; no
/// argument decides that.
#[verifier::external_body]
fn local_time_at(secs: i64, nanos: u32) -> (t: Option<chrono::NaiveDateTime>)
    requires
        0 <= secs < LOCAL_TIME_LIMIT,
    ensures
        nanos < 1_000_000_000 ==> t is Some,
{
    chrono::TimeZone::timestamp_opt(&chrono::Local, secs, nanos).single().map(|t| t.naive_local())
}

/// A date and time as `YYMMDDHHMMSS` (`NaiveDateTime::format` with
/// `%y%m%d%H%M%S`). chrono writes each of these fields as two zero-padded
/// digits (the year modulo 100), so the text is twelve decimal digits.
#[verifier::external_body]
fn compact_timestamp(t: &chrono::NaiveDateTime) -> (s: String)
    ensures
        is_timestamp_text(s@),
{
    t.format("%y%m%d%H%M%S").to_string()
}

/// The local time as `YYMMDDHHMMSS` at a clock reading of `secs` seconds
/// and `nanos` nanoseconds after the Unix epoch: there is one for every
/// reading before the last day chrono can date (with fewer than a billion
/// nanoseconds), and none from that day on.
pub fn timestamp_at(secs: u64, nanos: u32) -> (t: Option<String>)
    ensures
        secs < LOCAL_TIME_LIMIT && nanos < 1_000_000_000 ==> t is Some,
        secs >= LOCAL_TIME_LIMIT ==> t is None,
        t matches Some(s) ==> is_timestamp_text(s@),
{
    if secs >= LOCAL_TIME_LIMIT {
        return None;
    }
    match local_time_at(secs as i64, nanos) {
        Some(t) => Some(compact_timestamp(&t)),
        None => None,
    }
}

/// The local time now as `YYMMDDHHMMSS`: none when the system clock is
/// before the Unix epoch or on or past the last day chrono can date.
fn local_timestamp() -> (t: Option<String>)
    ensures
        t matches Some(s) ==> is_timestamp_text(s@),
{
    let now = system_now();
    let since = match since_unix_epoch(&now) {
        Some(d) => d,
        None => return None,
    };
    let secs = duration_secs(&since);
    let nanos = duration_subsec_nanos(&since);
    timestamp_at(secs, nanos)
}

/// Builds a location report frame (0x0200) with a given timestamp.
pub fn build_location_report_at(
    version: ProtocolVersion,
    terminal_phone: &str,
    serial_no: u16,
    latitude: u32,
    longitude: u32,
    altitude: u16,
    speed: u16,
    direction: u16,
    timestamp: &str,
) -> (frame: Vec<u8>)
    ensures
        frame@ == build_frame_spec(
            version,
            0x0200,
            terminal_phone@,
            serial_no,
            LocationReport::spec_encode(
                plain_location(latitude, longitude, altitude, speed, direction, timestamp@),
                version,
            ),
        ),
{
    let report = LocationReport {
        alarm_flags: 0,
        status: 0,
        latitude,
        longitude,
        altitude,
        speed,
        direction,
        timestamp: owned(timestamp),
        extra_items: Vec::new(),
    };
    assert(report.extra_items@.map_values(|x: crate::protocol::message::ExtraItem| x@) =~= Seq::<
        (u8, Seq<u8>),
    >::empty());
    assert(report@ =~= plain_location(latitude, longitude, altitude, speed, direction, timestamp@));
    let body = report.encode(version);
    build_frame(version, 0x0200, terminal_phone, serial_no, body.as_slice())
}

/// Builds a location report frame (0x0200) stamped with the local time;
/// none when the local time cannot be read (a system clock before the Unix
/// epoch or on or past the last day chrono can date; see `timestamp_at`).
pub fn build_location_report(
    version: ProtocolVersion,
    terminal_phone: &str,
    serial_no: u16,
    latitude: u32,
    longitude: u32,
    altitude: u16,
    speed: u16,
    direction: u16,
) -> (frame: Option<Vec<u8>>)
    ensures
        frame matches Some(f) ==> exists|t: Seq<char>|
            #![trigger plain_location(latitude, longitude, altitude, speed, direction, t)]
            is_timestamp_text(t) && f@ == build_frame_spec(
                version,
                0x0200,
                terminal_phone@,
                serial_no,
                LocationReport::spec_encode(
                    plain_location(latitude, longitude, altitude, speed, direction, t),
                    version,
                ),
            ),
{
    let timestamp = match local_timestamp() {
        Some(t) => t,
        None => return None,
    };
    Some(
        build_location_report_at(
            version,
            terminal_phone,
            serial_no,
            latitude,
            longitude,
            altitude,
            speed,
            direction,
            timestamp.as_str(),
        ),
    )
}

/// A built frame decodes to the header and body it was built from: the
/// frame check passes with nothing left over, the header reads back with the
/// message ID, serial number and version byte it was given (the body length
/// cut to its 10 bits, the SN text in its stored form), and the body follows
/// it unchanged.
#[verifier::rlimit(60)]
pub proof fn law_build_frame_roundtrip(
    version: ProtocolVersion,
    msg_id: u16,
    sn: Seq<char>,
    serial_no: u16,
    body: Seq<u8>,
)
    ensures
        ({
            let h = frame_header_view(version, msg_id, sn, serial_no, body.len());
            let m = header_bytes(h) + body;
            &&& decode_spec(build_frame_spec(version, msg_id, sn, serial_no, body)) == Some(
                (m, Seq::<u8>::empty()),
            )
            &&& parse_header_spec(m) == Some((header_as_decoded(h), header_bytes(h).len() as int))
            &&& m.skip(header_bytes(h).len() as int) == body
        }),
{
    let h = frame_header_view(version, msg_id, sn, serial_no, body.len());
    let m = header_bytes(h) + body;
    lemma_header_reads(h, body);
    lemma_escape_len(m.push(xor_all(m)));
    assert(frame_spec(m) + Seq::<u8>::empty() =~= frame_spec(m));
    law_frame_roundtrip(m, Seq::empty());
    law_header_roundtrip(h, body);
    assert(m.skip(header_bytes(h).len() as int) =~= body);
}

} // verus!
