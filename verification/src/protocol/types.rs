//! JT/T 808 protocol versions, message header and BCD text fields.
//!
//! 2013 header (12 bytes, 16 with subpackage info):
//!   msg_id(2) props(2) SN(6) serial(2) [total(2) seq(2)]
//! 2019 header (17 bytes, 21 with subpackage info):
//!   msg_id(2) props(2) version(1) SN(10) serial(2) [total(2) seq(2)]

use vstd::prelude::*;
use vstd::utf8::{encode_utf8, is_ascii_chars, is_ascii_chars_encode_utf8};

use crate::protocol::bytes::{be16, get_be16, lemma_be16_roundtrip, push_be16, read_be16};
use crate::protocol::text::{hex_digit_upper, hex_nibble_char_upper, owned, push_char};

verus! {

/// JT/T 808 protocol version, or plain TCP pass-through.
#[derive(Debug, Clone, Copy, PartialEq, Eq, Structural, Hash)]
pub enum ProtocolVersion {
    /// JT/T 808-2013
    V2013,
    /// JT/T 808-2019
    V2019,
    /// Plain TCP: bytes are sent as they are, neither framed nor parsed.
    GenericTcp,
}

impl Default for ProtocolVersion {
    fn default() -> (v: Self)
        ensures
            v == ProtocolVersion::V2013,
    {
        ProtocolVersion::V2013
    }
}

/// The display name of a version.
pub open spec fn version_name(v: ProtocolVersion) -> Seq<char> {
    match v {
        ProtocolVersion::V2013 => "JT808-2013"@,
        ProtocolVersion::V2019 => "JT808-2019"@,
        ProtocolVersion::GenericTcp => "通用TCP"@,
    }
}

/// The short name of a version.
pub open spec fn version_short_name(v: ProtocolVersion) -> Seq<char> {
    match v {
        ProtocolVersion::V2013 => "2013"@,
        ProtocolVersion::V2019 => "2019"@,
        ProtocolVersion::GenericTcp => "TCP"@,
    }
}

/// ASCII lower-casing of one byte; other bytes are kept.
pub open spec fn ascii_lower(b: u8) -> u8 {
    if 0x41 <= b <= 0x5A {
        (b + 32) as u8
    } else {
        b
    }
}

/// `needle` occurs in `hay` as a contiguous run.
pub open spec fn contains_run(hay: Seq<u8>, needle: Seq<u8>) -> bool {
    exists|i: int| 0 <= i <= hay.len() - needle.len() && #[trigger] hay.subrange(i, i + needle.len()) == needle
}

/// Version chosen by a loose, user-typed name: text naming TCP, "general"
/// (any letter case) or "通用" gives plain TCP, else "2019" gives 2019,
/// else 2013.
pub open spec fn loose_version(text: Seq<u8>) -> ProtocolVersion {
    let lower = text.map_values(|b: u8| ascii_lower(b));
    if contains_run(lower, seq![0x74u8, 0x63, 0x70]) || contains_run(
        lower,
        seq![0x67u8, 0x65, 0x6e, 0x65, 0x72, 0x61, 0x6c],
    ) || contains_run(text, seq![0xe9u8, 0x80, 0x9a, 0xe7, 0x94, 0xa8]) {
        ProtocolVersion::GenericTcp
    } else if contains_run(text, seq![0x32u8, 0x30, 0x31, 0x39]) {
        ProtocolVersion::V2019
    } else {
        ProtocolVersion::V2013
    }
}

/// Whether `needle` occurs in `hay`.
pub fn contains_bytes(hay: &[u8], needle: &[u8]) -> (r: bool)
    ensures
        r == contains_run(hay@, needle@),
{
    if needle.len() > hay.len() {
        proof {
            assert forall|i: int| 0 <= i <= hay@.len() - needle@.len() implies #[trigger] hay@.subrange(
                i,
                i + needle@.len(),
            ) != needle@ by {}
        }
        return false;
    }
    let hay_len = hay.len();
    let last = hay_len - needle.len();
    let mut i: usize = 0;
    loop
        invariant
            last == hay@.len() - needle@.len(),
            hay_len == hay@.len(),
            i <= last,
            forall|j: int| 0 <= j < i ==> #[trigger] hay@.subrange(j, j + needle@.len()) != needle@,
        decreases last - i,
    {
        let mut k: usize = 0;
        let mut same = true;
        while k < needle.len()
            invariant
                k <= needle@.len(),
                i <= last,
                last == hay@.len() - needle@.len(),
                i + needle@.len() <= hay@.len(),
                hay_len == hay@.len(),
                same == forall|t: int| 0 <= t < k ==> hay@[i + t] == needle@[t],
            decreases needle.len() - k,
        {
            if hay[i + k] != needle[k] {
                same = false;
            }
            k = k + 1;
        }
        if same {
            assert(hay@.subrange(i as int, i + needle@.len()) =~= needle@);
            return true;
        }
        assert(hay@.subrange(i as int, i + needle@.len()) != needle@) by {
            let t = choose|t: int| 0 <= t < needle@.len() && hay@[i + t] != needle@[t];
            assert(hay@.subrange(i as int, i + needle@.len())[t] == hay@[i + t]);
        }
        if i == last {
            return false;
        }
        i = i + 1;
    }
}

impl ProtocolVersion {
    /// All versions, in menu order.
    pub fn all() -> (r: &'static [ProtocolVersion])
        ensures
            r@ == seq![ProtocolVersion::V2013, ProtocolVersion::V2019, ProtocolVersion::GenericTcp],
    {
        let r: &'static [ProtocolVersion] = &[ProtocolVersion::V2013, ProtocolVersion::V2019, ProtocolVersion::GenericTcp];
        assert(r@ =~= seq![ProtocolVersion::V2013, ProtocolVersion::V2019, ProtocolVersion::GenericTcp]);
        r
    }

    /// Display name, e.g. "JT808-2013".
    pub fn name(&self) -> (r: &'static str)
        ensures
            r@ == version_name(*self),
    {
        match self {
            ProtocolVersion::V2013 => "JT808-2013",
            ProtocolVersion::V2019 => "JT808-2019",
            ProtocolVersion::GenericTcp => "通用TCP",
        }
    }

    /// Short name, e.g. "2013".
    pub fn short_name(&self) -> (r: &'static str)
        ensures
            r@ == version_short_name(*self),
    {
        match self {
            ProtocolVersion::V2013 => "2013",
            ProtocolVersion::V2019 => "2019",
            ProtocolVersion::GenericTcp => "TCP",
        }
    }

    /// Reads a version from loosely written text.
    pub fn from_str_loose(s: &str) -> (v: Self)
        ensures
            v == loose_version(encode_utf8(s@)),
    {
        let bytes = s.as_bytes();
        let mut lower: Vec<u8> = Vec::new();
        let mut i: usize = 0;
        while i < bytes.len()
            invariant
                i <= bytes@.len(),
                lower@ == bytes@.take(i as int).map_values(|b: u8| ascii_lower(b)),
            decreases bytes.len() - i,
        {
            let b = bytes[i];
            if 0x41 <= b && b <= 0x5A {
                lower.push(b + 32);
            } else {
                lower.push(b);
            }
            i = i + 1;
            assert(lower@ =~= bytes@.take(i as int).map_values(|b: u8| ascii_lower(b)));
        }
        assert(bytes@.take(i as int) =~= bytes@);
        let tcp: Vec<u8> = vec![0x74u8, 0x63, 0x70];
        let general: Vec<u8> = vec![0x67u8, 0x65, 0x6e, 0x65, 0x72, 0x61, 0x6c];
        let generic_cn: Vec<u8> = vec![0xe9u8, 0x80, 0x9a, 0xe7, 0x94, 0xa8];
        let year: Vec<u8> = vec![0x32u8, 0x30, 0x31, 0x39];
        assert(tcp@ =~= seq![0x74u8, 0x63, 0x70]);
        assert(general@ =~= seq![0x67u8, 0x65, 0x6e, 0x65, 0x72, 0x61, 0x6c]);
        assert(generic_cn@ =~= seq![0xe9u8, 0x80, 0x9a, 0xe7, 0x94, 0xa8]);
        assert(year@ =~= seq![0x32u8, 0x30, 0x31, 0x39]);
        if contains_bytes(lower.as_slice(), tcp.as_slice()) || contains_bytes(
            lower.as_slice(),
            general.as_slice(),
        ) || contains_bytes(bytes, generic_cn.as_slice()) {
            ProtocolVersion::GenericTcp
        } else if contains_bytes(bytes, year.as_slice()) {
            ProtocolVersion::V2019
        } else {
            ProtocolVersion::V2013
        }
    }

    /// Whether this is a JT/T 808 version (2013 or 2019).
    pub fn is_jt808(&self) -> (r: bool)
        ensures
            r == (*self == ProtocolVersion::V2013 || *self == ProtocolVersion::V2019),
    {
        match self {
            ProtocolVersion::V2013 | ProtocolVersion::V2019 => true,
            ProtocolVersion::GenericTcp => false,
        }
    }

    /// Whether this is plain TCP pass-through.
    pub fn is_generic(&self) -> (r: bool)
        ensures
            r == (*self == ProtocolVersion::GenericTcp),
    {
        match self {
            ProtocolVersion::GenericTcp => true,
            _ => false,
        }
    }

    /// Bytes of the terminal SN field in the header: 10 for 2019, else 6.
    pub fn phone_len(&self) -> (n: usize)
        ensures
            n == (if *self == ProtocolVersion::V2019 { 10usize } else { 6usize }),
    {
        match self {
            ProtocolVersion::V2019 => 10,
            _ => 6,
        }
    }

    /// Whether the header carries a version byte (2019 only).
    pub fn has_version_field(&self) -> (r: bool)
        ensures
            r == (*self == ProtocolVersion::V2019),
    {
        match self {
            ProtocolVersion::V2019 => true,
            _ => false,
        }
    }

    /// The header's version byte: 1 for 2019, none otherwise.
    pub fn version_number(&self) -> (r: Option<u8>)
        ensures
            r == spec_version_number(*self),
    {
        match self {
            ProtocolVersion::V2019 => Some(1),
            _ => None,
        }
    }
}

/// The header's version byte for a version.
pub open spec fn spec_version_number(v: ProtocolVersion) -> Option<u8> {
    if v == ProtocolVersion::V2019 {
        Some(1u8)
    } else {
        None
    }
}

/// Message body properties.
#[derive(Debug, Clone)]
pub struct BodyProps {
    /// Message body length (10 bits)
    pub body_len: u16,
    /// Data encryption (3 bits, usually 0 = none)
    pub encryption: u8,
    /// Whether the message is split into packages
    pub has_subpackage: bool,
}

impl Default for BodyProps {
    fn default() -> (p: Self)
        ensures
            p.body_len == 0,
            p.encryption == 0,
            !p.has_subpackage,
    {
        BodyProps { body_len: 0, encryption: 0, has_subpackage: false }
    }
}

/// The 16-bit properties word: length in bits 0-9, encryption in bits
/// 10-12, subpackage flag in bit 13.
pub open spec fn props_value(p: BodyProps) -> u16 {
    ((p.body_len % 1024) + (p.encryption % 8) * 1024 + (if p.has_subpackage { 8192int } else { 0 })) as u16
}

impl BodyProps {
    /// Encodes the properties word.
    pub fn encode(&self) -> (v: u16)
        ensures
            v == props_value(*self),
            v < 16384,
    {
        let mut val: u16 = self.body_len % 1024;
        val = val + ((self.encryption % 8) as u16) * 1024;
        if self.has_subpackage {
            val = val + 8192;
        }
        val
    }
}

/// Subpackage information (optional, 4 bytes).
#[derive(Debug, Clone)]
pub struct SubpackageInfo {
    /// Total number of packages
    pub total: u16,
    /// Package sequence number
    pub seq: u16,
}

/// Message header.
#[derive(Debug, Clone)]
pub struct MsgHeader {
    /// Message ID
    pub msg_id: u16,
    /// Message body properties
    pub body_props: BodyProps,
    /// Terminal SN (hex characters; 12 for 2013, 20 for 2019)
    pub terminal_id: String,
    /// Message serial number
    pub serial_no: u16,
    /// Optional subpackage info
    pub subpackage: Option<SubpackageInfo>,
    /// Version byte (2019 only); none means a 2013 header
    pub version: Option<u8>,
}

// ---------------------------------------------------------------- BCD text

/// An ASCII hexadecimal digit.
pub open spec fn is_hex_byte(b: u8) -> bool {
    (0x30 <= b <= 0x39) || (0x41 <= b <= 0x46) || (0x61 <= b <= 0x66)
}

/// The value of an ASCII hexadecimal digit.
pub open spec fn hex_value(b: u8) -> u8 {
    if b <= 0x39 {
        (b - 0x30) as u8
    } else if b <= 0x46 {
        (b - 0x37) as u8
    } else {
        (b - 0x57) as u8
    }
}

/// The values of the hexadecimal digits in `text`, others skipped.
pub open spec fn hex_nibbles(text: Seq<u8>) -> Seq<u8>
    decreases text.len(),
{
    if text.len() == 0 {
        Seq::empty()
    } else {
        let r = hex_nibbles(text.drop_last());
        if is_hex_byte(text.last()) {
            r.push(hex_value(text.last()))
        } else {
            r
        }
    }
}

/// Exactly `n` digits: the rightmost `n`, or left-padded with zeros.
pub open spec fn pad_nibbles(d: Seq<u8>, n: nat) -> Seq<u8> {
    if d.len() >= n {
        d.skip(d.len() - n)
    } else {
        Seq::new((n - d.len()) as nat, |i: int| 0u8) + d
    }
}

/// Two digits per byte, high digit first.
pub open spec fn pack_nibbles(p: Seq<u8>, len: nat) -> Seq<u8> {
    Seq::new(len, |i: int| (p[2 * i] * 16 + p[2 * i + 1]) as u8)
}

/// The `len`-byte field that `string_to_bcd` packs from the bytes of a text.
pub open spec fn bcd_spec(text: Seq<u8>, len: nat) -> Seq<u8> {
    pack_nibbles(pad_nibbles(hex_nibbles(text), 2 * len), len)
}

/// The digit values of a byte field, high digit of each byte first.
pub open spec fn nibbles(d: Seq<u8>) -> Seq<u8> {
    Seq::new(2 * d.len(), |i: int| if i % 2 == 0 { d[i / 2] / 16 } else { d[i / 2] % 16 })
}

/// The upper-case hexadecimal text of a byte field.
pub open spec fn bcd_chars(d: Seq<u8>) -> Seq<char> {
    Seq::new(2 * d.len(), |i: int| hex_digit_upper(nibbles(d)[i] as int))
}

/// Text without its leading '0' characters.
pub open spec fn trim_leading_zeros(s: Seq<char>) -> Seq<char>
    decreases s.len(),
{
    if s.len() > 0 && s[0] == '0' {
        trim_leading_zeros(s.skip(1))
    } else {
        s
    }
}

/// The terminal SN text of a header field: for 2019 headers leading zeros
/// are removed unless nothing would be left.
pub open spec fn sn_text(d: Seq<u8>, trim: bool) -> Seq<char> {
    if trim && trim_leading_zeros(bcd_chars(d)).len() > 0 {
        trim_leading_zeros(bcd_chars(d))
    } else {
        bcd_chars(d)
    }
}

proof fn lemma_hex_nibbles_small(text: Seq<u8>)
    ensures
        forall|k: int| 0 <= k < hex_nibbles(text).len() ==> hex_nibbles(text)[k] < 16,
    decreases text.len(),
{
    if text.len() > 0 {
        lemma_hex_nibbles_small(text.drop_last());
        let b = text.last();
        let r = hex_nibbles(text.drop_last());
        assert forall|k: int| 0 <= k < hex_nibbles(text).len() implies hex_nibbles(text)[k] < 16 by {
            if k < r.len() {
                assert(hex_nibbles(text)[k] == r[k]);
            }
        }
    }
}

proof fn lemma_hex_digit_zero(v: int)
    requires
        0 <= v < 16,
    ensures
        (hex_digit_upper(v) == '0') == (v == 0),
{
    if v < 10 {
        assert(((48 + v) as char) as u32 == 48 + v);
    } else {
        assert(((55 + v) as char) as u32 == 55 + v);
    }
}

proof fn lemma_trim_skip(s: Seq<char>, k: int)
    requires
        0 <= k <= s.len(),
        forall|j: int| 0 <= j < k ==> s[j] == '0',
        k == s.len() || s[k] != '0',
    ensures
        trim_leading_zeros(s) == s.skip(k),
    decreases k,
{
    if k == 0 {
        assert(s.skip(0) =~= s);
    } else {
        let t = s.skip(1);
        assert forall|j: int| 0 <= j < k - 1 implies t[j] == '0' by {
            assert(t[j] == s[j + 1]);
        }
        lemma_trim_skip(t, k - 1);
        assert(t.skip(k - 1) =~= s.skip(k));
    }
}

fn hex_value_of(b: u8) -> (v: u8)
    requires
        is_hex_byte(b),
    ensures
        v == hex_value(b),
        v < 16,
{
    if b <= 0x39 {
        b - 0x30
    } else if b <= 0x46 {
        b - 0x37
    } else {
        b - 0x57
    }
}

/// Packs the hexadecimal digits of a text into a fixed-length byte field,
/// two digits per byte. Other characters are skipped; the rightmost digits
/// are kept when there are too many, and zeros are put in front when there
/// are too few.
pub fn string_to_bcd(s: &str, len: usize) -> (out: Vec<u8>)
    requires
        len <= usize::MAX / 2,
    ensures
        out@ == bcd_spec(encode_utf8(s@), len as nat),
        out@.len() == len,
{
    let bytes = s.as_bytes();
    let mut digits: Vec<u8> = Vec::new();
    let mut i: usize = 0;
    while i < bytes.len()
        invariant
            i <= bytes@.len(),
            digits@ == hex_nibbles(bytes@.take(i as int)),
        decreases bytes.len() - i,
    {
        let b = bytes[i];
        proof {
            assert(bytes@.take(i as int + 1).drop_last() =~= bytes@.take(i as int));
        }
        if (0x30 <= b && b <= 0x39) || (0x41 <= b && b <= 0x46) || (0x61 <= b && b <= 0x66) {
            digits.push(hex_value_of(b));
        }
        i = i + 1;
    }
    assert(bytes@.take(i as int) =~= bytes@);
    proof {
        lemma_hex_nibbles_small(bytes@);
    }
    let target = len * 2;
    let mut padded: Vec<u8> = Vec::new();
    if digits.len() >= target {
        let start = digits.len() - target;
        padded = vstd::slice::slice_to_vec(
            vstd::slice::slice_subrange(digits.as_slice(), start, digits.len()),
        );
        assert(padded@ =~= digits@.skip(start as int));
    } else {
        crate::protocol::bytes::push_zeros(&mut padded, target - digits.len());
        crate::protocol::bytes::append_bytes(&mut padded, digits.as_slice());
    }
    assert(padded@ == pad_nibbles(hex_nibbles(encode_utf8(s@)), 2 * len as nat));
    assert forall|k: int| 0 <= k < padded@.len() implies padded@[k] < 16 by {
        if digits@.len() < target {
            if k >= target - digits@.len() {
                assert(padded@[k] == digits@[k - (target - digits@.len())]);
            }
        } else {
            assert(padded@[k] == digits@[k + (digits@.len() - target)]);
        }
    }
    let mut buf: Vec<u8> = Vec::new();
    let mut k: usize = 0;
    while k < len
        invariant
            k <= len,
            target == 2 * len,
            padded@.len() == target,
            forall|j: int| 0 <= j < padded@.len() ==> padded@[j] < 16,
            buf@ == pack_nibbles(padded@, k as nat),
        decreases len - k,
    {
        let hi = padded[2 * k];
        let lo = padded[2 * k + 1];
        buf.push(hi * 16 + lo);
        k = k + 1;
        assert(buf@ =~= pack_nibbles(padded@, k as nat));
    }
    buf
}

fn nibble_at(d: &[u8], i: usize) -> (v: u8)
    requires
        i < 2 * d@.len(),
    ensures
        v == nibbles(d@)[i as int],
        v < 16,
{
    let b = d[i / 2];
    if i % 2 == 0 {
        b / 16
    } else {
        b % 16
    }
}

/// The hexadecimal text of a byte field from digit `from` on.
fn nibble_text(d: &[u8], from: usize) -> (s: String)
    requires
        d@.len() <= usize::MAX / 2,
        from <= 2 * d@.len(),
    ensures
        s@ == bcd_chars(d@).skip(from as int),
{
    let n = d.len() * 2;
    let mut s = String::new();
    let mut i = from;
    while i < n
        invariant
            from <= i <= n,
            n == 2 * d@.len(),
            s@ == bcd_chars(d@).subrange(from as int, i as int),
        decreases n - i,
    {
        let v = nibble_at(d, i);
        let c = hex_nibble_char_upper(v);
        push_char(&mut s, c);
        i = i + 1;
        assert(s@ =~= bcd_chars(d@).subrange(from as int, i as int));
    }
    assert(bcd_chars(d@).subrange(from as int, n as int) =~= bcd_chars(d@).skip(from as int));
    s
}

/// Unpacks a byte field into upper-case hexadecimal text, two characters
/// per byte.
pub fn bcd_to_string(data: &[u8]) -> (s: String)
    requires
        data@.len() <= usize::MAX / 2,
    ensures
        s@ == bcd_chars(data@),
{
    let s = nibble_text(data, 0);
    assert(bcd_chars(data@).skip(0) =~= bcd_chars(data@));
    s
}

/// The terminal SN text of a header field.
fn sn_string(d: &[u8], trim: bool) -> (s: String)
    requires
        d@.len() <= usize::MAX / 2,
    ensures
        s@ == sn_text(d@, trim),
{
    if !trim {
        return bcd_to_string(d);
    }
    let n = d.len() * 2;
    let mut k: usize = 0;
    while k < n && nibble_at(d, k) == 0
        invariant
            k <= n,
            n == 2 * d@.len(),
            forall|j: int| 0 <= j < k ==> nibbles(d@)[j] == 0,
        decreases n - k,
    {
        k = k + 1;
    }
    proof {
        let c = bcd_chars(d@);
        assert forall|j: int| 0 <= j < k implies c[j] == '0' by {
            lemma_hex_digit_zero(nibbles(d@)[j] as int);
        }
        if k < n {
            lemma_hex_digit_zero(nibbles(d@)[k as int] as int);
        }
        lemma_trim_skip(c, k as int);
    }
    if k == n {
        bcd_to_string(d)
    } else {
        nibble_text(d, k)
    }
}

// ---------------------------------------------------------------- header

/// Whether the properties word sets the version flag (bit 14).
pub open spec fn flag_version(p: u16) -> bool {
    (p / 16384) % 2 == 1
}

/// Whether the properties word sets the subpackage flag (bit 13).
pub open spec fn flag_subpackage(p: u16) -> bool {
    (p / 8192) % 2 == 1
}

/// Length of the SN field for a header with or without version byte.
pub open spec fn sn_field_len(has_version: bool) -> int {
    if has_version {
        10
    } else {
        6
    }
}

/// Offset of the SN field.
pub open spec fn sn_offset(has_version: bool) -> int {
    if has_version {
        5
    } else {
        4
    }
}

/// The properties word that `MsgHeader::encode` writes.
pub open spec fn header_props(h: HeaderView) -> u16 {
    ((h.body_len % 1024) + (h.encryption % 8) * 1024 + (if h.has_subpackage { 8192int } else { 0 })
        + (if h.version is Some { 16384int } else { 0 })) as u16
}

/// The bytes that `MsgHeader::encode` writes.
pub open spec fn header_bytes(h: HeaderView) -> Seq<u8> {
    be16(h.msg_id) + be16(header_props(h)) + (match h.version {
        Some(v) => seq![v],
        None => Seq::empty(),
    }) + bcd_spec(encode_utf8(h.terminal_id), sn_field_len(h.version is Some) as nat) + be16(
        h.serial_no,
    ) + (match h.subpackage {
        Some(sp) => be16(sp.0) + be16(sp.1),
        None => Seq::empty(),
    })
}

/// The plain values of a header.
pub struct HeaderView {
    pub msg_id: u16,
    pub body_len: u16,
    pub encryption: u8,
    pub has_subpackage: bool,
    pub terminal_id: Seq<char>,
    pub serial_no: u16,
    pub subpackage: Option<(u16, u16)>,
    pub version: Option<u8>,
}

impl View for MsgHeader {
    type V = HeaderView;

    open spec fn view(&self) -> HeaderView {
        HeaderView {
            msg_id: self.msg_id,
            body_len: self.body_props.body_len,
            encryption: self.body_props.encryption,
            has_subpackage: self.body_props.has_subpackage,
            terminal_id: self.terminal_id@,
            serial_no: self.serial_no,
            subpackage: match self.subpackage {
                Some(sp) => Some((sp.total, sp.seq)),
                None => None,
            },
            version: self.version,
        }
    }
}

/// Why a header cannot be read from `d`, in the order the checks are made;
/// none when it can.
pub open spec fn header_error(d: Seq<u8>) -> Option<Seq<char>> {
    if d.len() < 4 {
        Some("消息头过短"@)
    } else {
        let p = read_be16(d, 2);
        let v = flag_version(p);
        let pos = sn_offset(v);
        if v && d.len() < 5 {
            Some("消息头版本号缺失"@)
        } else if d.len() < pos + sn_field_len(v) + 2 {
            Some("消息头终端SN不完整"@)
        } else if flag_subpackage(p) && d.len() < pos + sn_field_len(v) + 6 {
            Some("消息头分包信息不完整"@)
        } else {
            None
        }
    }
}

/// The header read from the front of `d`, with its length in bytes.
pub open spec fn parse_header_spec(d: Seq<u8>) -> Option<(HeaderView, int)> {
    if header_error(d) is Some {
        None
    } else {
        let p = read_be16(d, 2);
        let v = flag_version(p);
        let sub = flag_subpackage(p);
        let pos = sn_offset(v);
        let n = sn_field_len(v);
        Some(
            (
                HeaderView {
                    msg_id: read_be16(d, 0),
                    body_len: (p % 1024) as u16,
                    encryption: (p / 1024 % 8) as u8,
                    has_subpackage: sub,
                    terminal_id: sn_text(d.subrange(pos, pos + n), v),
                    serial_no: read_be16(d, pos + n),
                    subpackage: if sub {
                        Some((read_be16(d, pos + n + 2), read_be16(d, pos + n + 4)))
                    } else {
                        None
                    },
                    version: if v {
                        Some(d[4])
                    } else {
                        None
                    },
                },
                pos + n + 2 + (if sub { 4int } else { 0 }),
            ),
        )
    }
}

fn error_text(t: &str) -> (s: String)
    ensures
        s@ == t@,
{
    owned(t)
}

impl MsgHeader {
    /// Protocol version shown by the header: 2019 when it carries a version
    /// byte, else 2013.
    pub fn protocol_version(&self) -> (v: ProtocolVersion)
        ensures
            v == (if self.version is Some { ProtocolVersion::V2019 } else { ProtocolVersion::V2013 }),
    {
        if self.version.is_some() {
            ProtocolVersion::V2019
        } else {
            ProtocolVersion::V2013
        }
    }

    /// Encodes the header.
    pub fn encode(&self) -> (out: Vec<u8>)
        ensures
            out@ == header_bytes(self@),
    {
        let mut props = self.body_props.encode();
        if self.version.is_some() {
            props = props + 16384;
        }
        let mut buf: Vec<u8> = Vec::new();
        push_be16(&mut buf, self.msg_id);
        push_be16(&mut buf, props);
        match self.version {
            Some(v) => {
                buf.push(v);
            },
            None => {},
        }
        let sn_len: usize = if self.version.is_some() {
            10
        } else {
            6
        };
        let sn = string_to_bcd(self.terminal_id.as_str(), sn_len);
        crate::protocol::bytes::append_bytes(&mut buf, sn.as_slice());
        push_be16(&mut buf, self.serial_no);
        match &self.subpackage {
            Some(sp) => {
                push_be16(&mut buf, sp.total);
                push_be16(&mut buf, sp.seq);
            },
            None => {},
        }
        assert(buf@ =~= header_bytes(self@));
        buf
    }

    /// Decodes a header from the front of an unescaped, checksum-free
    /// message; gives back the header and its length in bytes.
    pub fn decode(data: &[u8]) -> (res: Result<(Self, usize), String>)
        ensures
            match res {
                Ok((h, n)) => parse_header_spec(data@) == Some((h@, n as int)),
                Err(e) => parse_header_spec(data@) is None && header_error(data@) == Some(e@),
            },
    {
        if data.len() < 4 {
            return Err(error_text("消息头过短"));
        }
        let msg_id = get_be16(data, 0);
        let props_raw = get_be16(data, 2);
        let has_subpackage = (props_raw / 8192) % 2 == 1;
        let has_version = (props_raw / 16384) % 2 == 1;
        let mut pos: usize = 4;
        let version = if has_version {
            if data.len() < pos + 1 {
                return Err(error_text("消息头版本号缺失"));
            }
            let v = data[pos];
            pos = pos + 1;
            Some(v)
        } else {
            None
        };
        let sn_len: usize = if has_version {
            10
        } else {
            6
        };
        if data.len() < pos + sn_len + 2 {
            return Err(error_text("消息头终端SN不完整"));
        }
        let sn = vstd::slice::slice_subrange(data, pos, pos + sn_len);
        let terminal_id = sn_string(sn, has_version);
        pos = pos + sn_len;
        let serial_no = get_be16(data, pos);
        pos = pos + 2;
        let subpackage = if has_subpackage {
            if data.len() < pos + 4 {
                return Err(error_text("消息头分包信息不完整"));
            }
            let total = get_be16(data, pos);
            let seq = get_be16(data, pos + 2);
            pos = pos + 4;
            Some(SubpackageInfo { total, seq })
        } else {
            None
        };
        let h = MsgHeader {
            msg_id,
            body_props: BodyProps {
                body_len: props_raw % 1024,
                encryption: ((props_raw / 1024) % 8) as u8,
                has_subpackage,
            },
            terminal_id,
            serial_no,
            subpackage,
            version,
        };
        Ok((h, pos))
    }
}

/// A header whose subpackage flag agrees with the presence of subpackage
/// info.
pub open spec fn header_consistent(h: HeaderView) -> bool {
    h.has_subpackage == (h.subpackage is Some)
}

/// The header a reader sees after `encode`: the same fields, the body length
/// and encryption cut to their bit widths, the SN text normalized the way
/// the SN field stores it.
pub open spec fn header_as_decoded(h: HeaderView) -> HeaderView {
    HeaderView {
        msg_id: h.msg_id,
        body_len: (h.body_len % 1024) as u16,
        encryption: (h.encryption % 8) as u8,
        has_subpackage: h.has_subpackage,
        terminal_id: sn_text(
            bcd_spec(encode_utf8(h.terminal_id), sn_field_len(h.version is Some) as nat),
            h.version is Some,
        ),
        serial_no: h.serial_no,
        subpackage: h.subpackage,
        version: h.version,
    }
}

proof fn lemma_props_flags(bl: int, enc: int, sub: bool, ver: bool)
    requires
        0 <= bl < 1024,
        0 <= enc < 8,
    ensures
        ({
            let p = bl + enc * 1024 + (if sub { 8192int } else { 0 }) + (if ver { 16384int } else { 0 });
            &&& 0 <= p < 32768
            &&& (p / 16384 % 2 == 1) == ver
            &&& (p / 8192 % 2 == 1) == sub
            &&& p % 1024 == bl
            &&& p / 1024 % 8 == enc
        }),
{
}

/// What the header reader finds in a header written before any bytes.
#[verifier::rlimit(40)]
#[verifier::spinoff_prover]
pub proof fn lemma_header_reads(h: HeaderView, rest: Seq<u8>)
    ensures
        ({
            let d = header_bytes(h) + rest;
            let ver = h.version is Some;
            let pos = sn_offset(ver);
            let n = sn_field_len(ver);
            &&& d.len() == header_bytes(h).len() + rest.len()
            &&& header_bytes(h).len() == pos + n + 2 + (if h.subpackage is Some { 4int } else { 0 })
            &&& read_be16(d, 0) == h.msg_id
            &&& read_be16(d, 2) == header_props(h)
            &&& (ver ==> d[4] == h.version->Some_0)
            &&& d.subrange(pos, pos + n) == bcd_spec(encode_utf8(h.terminal_id), n as nat)
            &&& read_be16(d, pos + n) == h.serial_no
            &&& (h.subpackage is Some ==> read_be16(d, pos + n + 2) == h.subpackage->Some_0.0
                && read_be16(d, pos + n + 4) == h.subpackage->Some_0.1)
        }),
{
    let ver = h.version is Some;
    let p = header_props(h);
    let a = be16(h.msg_id);
    let b = be16(p);
    let vb: Seq<u8> = match h.version {
        Some(v) => seq![v],
        None => Seq::empty(),
    };
    let n = sn_field_len(ver);
    let sn = bcd_spec(encode_utf8(h.terminal_id), n as nat);
    let r = be16(h.serial_no);
    let sp: Seq<u8> = match h.subpackage {
        Some(x) => be16(x.0) + be16(x.1),
        None => Seq::empty(),
    };
    let d = header_bytes(h) + rest;
    assert(header_bytes(h) =~= a + b + vb + sn + r + sp);
    assert(sn.len() == n);
    let pos = sn_offset(ver);
    assert(vb.len() == pos - 4);
    lemma_be16_roundtrip(h.msg_id, Seq::empty(), b + vb + sn + r + sp + rest);
    assert(d =~= Seq::<u8>::empty() + a + (b + vb + sn + r + sp + rest));
    lemma_be16_roundtrip(p, a, vb + sn + r + sp + rest);
    assert(d =~= a + b + (vb + sn + r + sp + rest));
    lemma_be16_roundtrip(h.serial_no, a + b + vb + sn, sp + rest);
    assert(d =~= (a + b + vb + sn) + r + (sp + rest));
    assert(d.subrange(pos, pos + n) =~= sn);
    if let Some(x) = h.subpackage {
        lemma_be16_roundtrip(x.0, a + b + vb + sn + r, be16(x.1) + rest);
        assert(d =~= (a + b + vb + sn + r) + be16(x.0) + (be16(x.1) + rest));
        lemma_be16_roundtrip(x.1, a + b + vb + sn + r + be16(x.0), rest);
        assert(d =~= (a + b + vb + sn + r + be16(x.0)) + be16(x.1) + rest);
    }
    if let Some(v) = h.version {
        assert(d[4] == v);
    }
}

/// Reading back an encoded header whose subpackage flag agrees with its
/// subpackage info gives its fields again (body length and encryption cut to
/// their bit widths, the SN text in its stored form) and its length,
/// whatever follows it.
pub proof fn law_header_roundtrip(h: HeaderView, rest: Seq<u8>)
    requires
        header_consistent(h),
    ensures
        parse_header_spec(header_bytes(h) + rest) == Some(
            (header_as_decoded(h), header_bytes(h).len() as int),
        ),
{
    let ver = h.version is Some;
    lemma_props_flags(
        (h.body_len % 1024) as int,
        (h.encryption % 8) as int,
        h.has_subpackage,
        ver,
    );
    lemma_header_reads(h, rest);
    let d = header_bytes(h) + rest;
    let p = read_be16(d, 2);
    assert(p == header_props(h));
    assert(flag_version(p) == ver);
    assert(flag_subpackage(p) == (h.subpackage is Some));
    assert(header_error(d) is None);
    let got = parse_header_spec(d)->Some_0.0;
    assert(got.subpackage == h.subpackage);
    assert(got.version == h.version);
    assert(got =~= header_as_decoded(h));
}

/// Packing the text of a byte field gives back the field.
pub proof fn law_bcd_text_roundtrip(d: Seq<u8>)
    ensures
        bcd_spec(encode_utf8(bcd_chars(d)), d.len()) == d,
{
    let c = bcd_chars(d);
    assert(is_ascii_chars(c)) by {
        assert forall|i: int| 0 <= i < c.len() implies '\0' <= #[trigger] c[i] <= '\u{7f}' by {
            let v = nibbles(d)[i] as int;
            if v < 10 {
                assert(((48 + v) as char) as u32 == 48 + v);
            } else {
                assert(((55 + v) as char) as u32 == 55 + v);
            }
        }
    }
    is_ascii_chars_encode_utf8(c);
    let t = encode_utf8(c);
    lemma_hex_nibbles_of_text(d, t, t.len() as int);
    assert(t.take(t.len() as int) =~= t);
    let nb = nibbles(d);
    assert(pad_nibbles(nb, 2 * d.len()) =~= nb);
    assert(pack_nibbles(nb, d.len()) =~= d);
}

proof fn lemma_hex_nibbles_of_text(d: Seq<u8>, t: Seq<u8>, k: int)
    requires
        0 <= k <= t.len(),
        t.len() == 2 * d.len(),
        forall|i: int| 0 <= i < t.len() ==> #[trigger] t[i] == bcd_chars(d)[i] as u8,
    ensures
        hex_nibbles(t.take(k)) == nibbles(d).take(k),
    decreases k,
{
    if k == 0 {
        assert(t.take(0) =~= Seq::<u8>::empty());
        assert(hex_nibbles(t.take(0)) =~= nibbles(d).take(0));
    } else {
        lemma_hex_nibbles_of_text(d, t, k - 1);
        assert(t.take(k).drop_last() =~= t.take(k - 1));
        let v = nibbles(d)[k - 1] as int;
        let ch = bcd_chars(d)[k - 1];
        assert(t[k - 1] == ch as u8);
        if v < 10 {
            assert(((48 + v) as char) as u32 == 48 + v);
            assert(t[k - 1] == 48 + v);
        } else {
            assert(((55 + v) as char) as u32 == 55 + v);
            assert(t[k - 1] == 55 + v);
        }
        assert(nibbles(d).take(k) =~= nibbles(d).take(k - 1).push(nibbles(d)[k - 1]));
    }
}

/// The text of a packed field: the upper-case hexadecimal digits of the
/// source text, the rightmost `2 * len` of them, with '0' in front when
/// there are fewer.
pub proof fn law_bcd_of_text(text: Seq<u8>, len: nat)
    ensures
        bcd_chars(bcd_spec(text, len)) == pad_nibbles(hex_nibbles(text), 2 * len).map_values(
            |v: u8| hex_digit_upper(v as int),
        ),
{
    let p = pad_nibbles(hex_nibbles(text), 2 * len);
    lemma_hex_nibbles_small(text);
    assert(p.len() == 2 * len);
    assert forall|i: int| 0 <= i < p.len() implies p[i] < 16 by {
        let h = hex_nibbles(text);
        if h.len() >= 2 * len {
            assert(p[i] == h[i + (h.len() - 2 * len)]);
        } else if i >= 2 * len - h.len() {
            assert(p[i] == h[i - (2 * len - h.len())]);
        }
    }
    let packed = bcd_spec(text, len);
    assert forall|i: int| 0 <= i < 2 * len implies nibbles(packed)[i] == p[i] by {
        let j = i / 2;
        assert(packed[j] == (p[2 * j] * 16 + p[2 * j + 1]) as u8);
    }
    assert(bcd_chars(packed) =~= p.map_values(|v: u8| hex_digit_upper(v as int)));
}

/// A version saved under its display name reads back as the same version.
pub proof fn law_display_name_reads_back(v: ProtocolVersion)
    ensures
        loose_version(encode_utf8(version_name(v))) == v,
{
    let tcp = seq![0x74u8, 0x63, 0x70];
    let general = seq![0x67u8, 0x65, 0x6e, 0x65, 0x72, 0x61, 0x6c];
    let generic_cn = seq![0xe9u8, 0x80, 0x9a, 0xe7, 0x94, 0xa8];
    let year = seq![0x32u8, 0x30, 0x31, 0x39];
    if v == ProtocolVersion::GenericTcp {
        reveal_strlit("通用TCP");
        let s = version_name(v);
        let a = s.take(2);
        let b = s.skip(2);
        assert(a + b =~= s);
        crate::protocol::text::lemma_encode_utf8_concat(a, b);
        assert(is_ascii_chars(b));
        is_ascii_chars_encode_utf8(b);
        let text = encode_utf8(s);
        let n = encode_utf8(a).len() as int;
        let lower = text.map_values(|x: u8| ascii_lower(x));
        assert(text == encode_utf8(a) + encode_utf8(b));
        assert(text[n] == b[0] as u8 && text[n + 1] == b[1] as u8 && text[n + 2] == b[2] as u8);
        assert(lower.subrange(n, n + tcp.len()) =~= tcp);
        assert(contains_run(lower, tcp));
    } else {
        reveal_strlit("JT808-2013");
        reveal_strlit("JT808-2019");
        let s = version_name(v);
        assert(is_ascii_chars(s));
        is_ascii_chars_encode_utf8(s);
        let text = encode_utf8(s);
        let lower = text.map_values(|x: u8| ascii_lower(x));
        assert(text[0] == 0x4A && text[1] == 0x54 && text[2] == 0x38 && text[3] == 0x30);
        assert(text[4] == 0x38 && text[5] == 0x2D && text[6] == 0x32 && text[7] == 0x30);
        assert(text[8] == 0x31);
        assert forall|i: int| 0 <= i <= lower.len() - tcp.len() implies #[trigger] lower.subrange(
            i,
            i + tcp.len(),
        ) != tcp by {
            let sub = lower.subrange(i, i + tcp.len());
            assert(sub[0] == lower[i] && sub[1] == lower[i + 1]);
        }
        assert forall|i: int| 0 <= i <= lower.len() - general.len() implies #[trigger] lower.subrange(
            i,
            i + general.len(),
        ) != general by {
            assert(lower.subrange(i, i + general.len())[0] == lower[i]);
        }
        assert forall|i: int| 0 <= i <= text.len() - generic_cn.len() implies #[trigger] text.subrange(
            i,
            i + generic_cn.len(),
        ) != generic_cn by {
            assert(text.subrange(i, i + generic_cn.len())[0] == text[i]);
        }
        if v == ProtocolVersion::V2019 {
            assert(text[9] == 0x39);
            assert(text.subrange(6int, 6int + year.len()) =~= year);
            assert(contains_run(text, year));
        } else {
            assert(text[9] == 0x33);
            assert forall|i: int| 0 <= i <= text.len() - year.len() implies #[trigger] text.subrange(
                i,
                i + year.len(),
            ) != year by {
                let sub = text.subrange(i, i + year.len());
                assert(sub[0] == text[i] && sub[3] == text[i + 3]);
            }
        }
    }
}

/// A byte field's text has two upper-case hexadecimal digits per byte: the
/// high half of each byte, then its low half.
pub proof fn law_bcd_chars_layout(d: Seq<u8>)
    ensures
        bcd_chars(d).len() == 2 * d.len(),
        forall|k: int|
            0 <= k < d.len() ==> {
                &&& #[trigger] bcd_chars(d)[2 * k] == hex_digit_upper((d[k] / 16) as int)
                &&& bcd_chars(d)[2 * k + 1] == hex_digit_upper((d[k] % 16) as int)
            },
{
    assert forall|k: int| 0 <= k < d.len() implies {
        &&& #[trigger] bcd_chars(d)[2 * k] == hex_digit_upper((d[k] / 16) as int)
        &&& bcd_chars(d)[2 * k + 1] == hex_digit_upper((d[k] % 16) as int)
    } by {
        assert((2 * k) / 2 == k && (2 * k) % 2 == 0);
        assert((2 * k + 1) / 2 == k && (2 * k + 1) % 2 == 1);
    }
}

/// An upper-case hexadecimal digit character.
pub open spec fn is_upper_hex_char(c: char) -> bool {
    ('0' <= c <= '9') || ('A' <= c <= 'F')
}

proof fn lemma_hex_nibbles_all_hex(b: Seq<u8>)
    requires
        forall|i: int| 0 <= i < b.len() ==> is_hex_byte(#[trigger] b[i]),
    ensures
        hex_nibbles(b) == b.map_values(|x: u8| hex_value(x)),
    decreases b.len(),
{
    if b.len() > 0 {
        lemma_hex_nibbles_all_hex(b.drop_last());
        assert(b.drop_last().map_values(|x: u8| hex_value(x)).push(hex_value(b.last())) =~= b.map_values(
            |x: u8| hex_value(x),
        ));
    } else {
        assert(b.map_values(|x: u8| hex_value(x)) =~= Seq::<u8>::empty());
    }
}

/// Text of exactly `2 * n` upper-case hexadecimal digits, packed into an
/// `n`-byte field, reads back as the same text.
pub proof fn law_bcd_of_hex_text(s: Seq<char>, n: nat)
    requires
        s.len() == 2 * n,
        forall|i: int| 0 <= i < s.len() ==> is_upper_hex_char(#[trigger] s[i]),
    ensures
        bcd_chars(bcd_spec(encode_utf8(s), n)) == s,
{
    assert(is_ascii_chars(s));
    is_ascii_chars_encode_utf8(s);
    let b = encode_utf8(s);
    assert forall|i: int| 0 <= i < b.len() implies is_hex_byte(#[trigger] b[i]) by {
        assert(s[i] as u8 == b[i]);
    }
    lemma_hex_nibbles_all_hex(b);
    let h = hex_nibbles(b);
    assert(pad_nibbles(h, 2 * n) =~= h);
    law_bcd_of_text(b, n);
    let m = h.map_values(|v: u8| hex_digit_upper(v as int));
    assert forall|i: int| 0 <= i < s.len() implies #[trigger] m[i] == s[i] by {
        let c = s[i];
        assert(c as u8 == b[i]);
        let v = hex_value(b[i]) as int;
        if c <= '9' {
            assert(v == c as u32 - 48);
            assert(((48 + v) as char) as u32 == c as u32);
        } else {
            assert(v == c as u32 - 55);
            assert(((55 + v) as char) as u32 == c as u32);
        }
    }
    assert(m =~= s);
}

/// A version saved under its short name reads back as the same version.
pub proof fn law_short_name_reads_back(v: ProtocolVersion)
    ensures
        loose_version(encode_utf8(version_short_name(v))) == v,
{
    reveal_strlit("2013");
    reveal_strlit("2019");
    reveal_strlit("TCP");
    let s = version_short_name(v);
    assert(is_ascii_chars(s));
    vstd::utf8::is_ascii_chars_encode_utf8(s);
    let text = encode_utf8(s);
    let lower = text.map_values(|b: u8| ascii_lower(b));
    let tcp = seq![0x74u8, 0x63, 0x70];
    let general = seq![0x67u8, 0x65, 0x6e, 0x65, 0x72, 0x61, 0x6c];
    let generic_cn = seq![0xe9u8, 0x80, 0x9a, 0xe7, 0x94, 0xa8];
    let year = seq![0x32u8, 0x30, 0x31, 0x39];
    if v == ProtocolVersion::GenericTcp {
        assert(lower.subrange(0int, 0int + tcp.len()) =~= tcp);
        assert(contains_run(lower, tcp));
    } else {
        assert(text[0] == 0x32 && text[1] == 0x30 && text[2] == 0x31);
        assert forall|i: int| 0 <= i <= lower.len() - tcp.len() implies #[trigger] lower.subrange(
            i,
            i + tcp.len(),
        ) != tcp by {
            assert(lower.subrange(i, i + tcp.len())[0] == lower[i]);
        }
        assert(!contains_run(lower, general));
        assert(!contains_run(text, generic_cn));
        if v == ProtocolVersion::V2019 {
            assert(text.subrange(0int, 0int + year.len()) =~= year);
            assert(contains_run(text, year));
        } else {
            assert forall|i: int| 0 <= i <= text.len() - year.len() implies #[trigger] text.subrange(
                i,
                i + year.len(),
            ) != year by {
                assert(text.subrange(i, i + year.len())[3] == text[3]);
            }
        }
    }
}

} // verus!
