//! Text helpers: hexadecimal digits, building strings, and the calls into
//! std and `encoding_rs` that turn bytes into text and back.

use vstd::prelude::*;
use vstd::utf8::{decode_utf8, encode_scalar, encode_utf8, is_ascii_chars, valid_utf8};

verus! {

/// The upper-case hexadecimal digit for a value below 16.
pub open spec fn hex_digit_upper(v: int) -> char {
    if v < 10 {
        (48 + v) as char
    } else {
        (55 + v) as char
    }
}

/// The lower-case hexadecimal digit for a value below 16.
pub open spec fn hex_digit_lower(v: int) -> char {
    if v < 10 {
        (48 + v) as char
    } else {
        (87 + v) as char
    }
}

/// Two upper-case hexadecimal digits of a byte.
pub open spec fn hex_byte_upper(b: u8) -> Seq<char> {
    seq![hex_digit_upper((b / 16) as int), hex_digit_upper((b % 16) as int)]
}

/// The upper-case hexadecimal digit of a value below 16.
pub fn hex_nibble_char_upper(v: u8) -> (c: char)
    requires
        v < 16,
    ensures
        c == hex_digit_upper(v as int),
{
    if v < 10 {
        (48 + v) as char
    } else {
        (55 + v) as char
    }
}

/// Appends one character (`String::push`).
#[verifier::external_body]
pub(crate) fn push_char(s: &mut String, c: char)
    ensures
        final(s)@ == old(s)@.push(c),
{
    s.push(c);
}

/// Appends a string slice (`String::push_str`).
#[verifier::external_body]
pub(crate) fn push_str(s: &mut String, t: &str)
    ensures
        final(s)@ == old(s)@ + t@,
{
    s.push_str(t);
}

/// An owned copy of a string slice.
pub fn owned(t: &str) -> (s: String)
    ensures
        s@ == t@,
{
    let mut s = String::new();
    push_str(&mut s, t);
    assert(s@ =~= t@);
    s
}

/// Text without its trailing '\0' characters.
pub open spec fn trim_trailing_nuls(s: Seq<char>) -> Seq<char>
    decreases s.len(),
{
    if s.len() > 0 && s.last() == '\0' {
        trim_trailing_nuls(s.drop_last())
    } else {
        s
    }
}

/// What `String::from_utf8_lossy` makes of a byte sequence.
pub uninterp spec fn lossy_utf8(b: Seq<u8>) -> Seq<char>;

/// The text of a byte sequence read as UTF-8: decoded when valid, else
/// what `String::from_utf8_lossy` makes of it.
pub open spec fn utf8_text(b: Seq<u8>) -> Seq<char> {
    if valid_utf8(b) {
        decode_utf8(b)
    } else {
        lossy_utf8(b)
    }
}

/// What `encoding_rs::GBK.encode` makes of a text.
pub uninterp spec fn gbk_encoded_raw(s: Seq<char>) -> Seq<u8>;

/// The GBK bytes of a text: ASCII text is its own bytes, anything else is
/// what `encoding_rs::GBK.encode` makes of it.
pub open spec fn gbk_encoded(s: Seq<char>) -> Seq<u8> {
    if is_ascii_chars(s) {
        encode_utf8(s)
    } else {
        gbk_encoded_raw(s)
    }
}

/// What `encoding_rs::GBK.decode` makes of a byte sequence.
pub uninterp spec fn gbk_decoded_raw(b: Seq<u8>) -> Seq<char>;

/// Bytes below 0x80 only.
pub open spec fn all_ascii_bytes(b: Seq<u8>) -> bool {
    forall|i: int| 0 <= i < b.len() ==> b[i] < 0x80
}

/// The text of GBK bytes: bytes below 0x80 alone are the same characters,
/// anything else is what `encoding_rs::GBK.decode` makes of it.
pub open spec fn gbk_decoded(b: Seq<u8>) -> Seq<char> {
    if all_ascii_bytes(b) {
        b.map_values(|x: u8| x as char)
    } else {
        gbk_decoded_raw(b)
    }
}

/// Lengths up to which the GBK codec's buffer arithmetic cannot overflow.
pub open spec fn gbk_len_ok(n: int) -> bool {
    n <= usize::MAX / 16
}

/// Decodes bytes as UTF-8, invalid sequences replaced
/// (`String::from_utf8_lossy`). For valid UTF-8 the result is the decoded
/// text, as std documents; for other bytes it is named, not stated.
#[verifier::external_body]
pub(crate) fn utf8_lossy(b: &[u8]) -> (s: String)
    ensures
        valid_utf8(b@) ==> s@ == decode_utf8(b@),
        !valid_utf8(b@) ==> s@ == lossy_utf8(b@),
{
    String::from_utf8_lossy(b).into_owned()
}

/// Reads bytes as UTF-8 text (`std::str::from_utf8`): the text when the
/// bytes are valid UTF-8, none otherwise.
#[verifier::external_body]
pub(crate) fn utf8_str(b: &[u8]) -> (r: Option<&str>)
    ensures
        match r {
            Some(t) => valid_utf8(b@) && encode_utf8(t@) == b@,
            None => !valid_utf8(b@),
        },
{
    std::str::from_utf8(b).ok()
}

/// Removes every trailing '\0' character (`str::trim_end_matches`).
#[verifier::external_body]
pub(crate) fn trim_end_nuls(s: &str) -> (r: &str)
    ensures
        r@ == trim_trailing_nuls(s@),
{
    s.trim_end_matches('\0')
}

/// Encodes text as GBK (`encoding_rs::GBK.encode`, first part of the
/// result). The result is named; text made of ASCII characters alone comes
/// back as its own bytes, as the crate's source shows (it borrows the input
/// when every byte is ASCII). What becomes of other characters is not stated.
#[verifier::external_body]
pub(crate) fn gbk_encode(s: &str) -> (b: Vec<u8>)
    requires
        gbk_len_ok(encode_utf8(s@).len() as int),
    ensures
        is_ascii_chars(s@) ==> b@ == encode_utf8(s@),
        !is_ascii_chars(s@) ==> b@ == gbk_encoded_raw(s@),
{
    let (encoded, _, _) = encoding_rs::GBK.encode(s);
    encoded.into_owned()
}

/// Decodes GBK bytes, malformed sequences replaced
/// (`encoding_rs::GBK.decode`, first part of the result). The result is
/// named; bytes below 0x80 alone come back as the same characters, as the
/// crate's source shows (no byte-order mark can start such input, and it is
/// borrowed as it is). What becomes of other bytes is not stated.
#[verifier::external_body]
pub(crate) fn gbk_decode(b: &[u8]) -> (s: String)
    requires
        gbk_len_ok(b@.len() as int),
    ensures
        all_ascii_bytes(b@) ==> s@ == b@.map_values(|x: u8| x as char),
        !all_ascii_bytes(b@) ==> s@ == gbk_decoded_raw(b@),
{
    let (decoded, _, _) = encoding_rs::GBK.decode(b);
    decoded.into_owned()
}

/// The text of a fixed-length string field: UTF-8 with invalid sequences
/// replaced, trailing '\0' characters removed.
pub open spec fn field_text(b: Seq<u8>) -> Seq<char> {
    trim_trailing_nuls(utf8_text(b))
}

/// Reads a fixed-length string field.
pub fn read_field_text(b: &[u8]) -> (s: String)
    ensures
        s@ == field_text(b@),
{
    let raw = utf8_lossy(b);
    let trimmed = trim_end_nuls(raw.as_str());
    owned(trimmed)
}

/// Reads a GBK string field, trailing '\0' characters removed.
pub fn read_gbk_text(b: &[u8]) -> (s: String)
    requires
        gbk_len_ok(b@.len() as int),
    ensures
        s@ == trim_trailing_nuls(gbk_decoded(b@)),
{
    let raw = gbk_decode(b);
    let trimmed = trim_end_nuls(raw.as_str());
    owned(trimmed)
}

/// Bytes cut or zero-padded to exactly `n`.
pub open spec fn fit_bytes(b: Seq<u8>, n: nat) -> Seq<u8> {
    if b.len() >= n {
        b.take(n as int)
    } else {
        b + Seq::new((n - b.len()) as nat, |i: int| 0u8)
    }
}

/// The UTF-8 bytes of a text, cut or zero-padded to a fixed length.
pub fn fixed_string(s: &str, len: usize) -> (b: Vec<u8>)
    ensures
        b@ == fit_bytes(encode_utf8(s@), len as nat),
{
    let src = s.as_bytes();
    let mut buf: Vec<u8> = Vec::new();
    if src.len() >= len {
        crate::protocol::bytes::append_bytes(&mut buf, vstd::slice::slice_subrange(src, 0, len));
    } else {
        crate::protocol::bytes::append_bytes(&mut buf, src);
        crate::protocol::bytes::push_zeros(&mut buf, len - src.len());
    }
    buf
}

/// Decimal digits of a number, most significant first.
pub open spec fn decimal(n: nat) -> Seq<char>
    decreases n,
{
    if n < 10 {
        seq![hex_digit_upper(n as int)]
    } else {
        decimal(n / 10).push(hex_digit_upper((n % 10) as int))
    }
}

/// Four upper-case hexadecimal digits of a 16-bit value.
pub open spec fn hex4_upper(v: u16) -> Seq<char> {
    seq![
        hex_digit_upper((v / 4096) as int),
        hex_digit_upper((v / 256 % 16) as int),
        hex_digit_upper((v / 16 % 16) as int),
        hex_digit_upper((v % 16) as int),
    ]
}

/// Appends the decimal digits of a number.
pub fn push_decimal(s: &mut String, n: u64)
    ensures
        final(s)@ == old(s)@ + decimal(n as nat),
    decreases n,
{
    if n >= 10 {
        push_decimal(s, n / 10);
    }
    let d = hex_nibble_char_upper((n % 10) as u8);
    push_char(s, d);
    proof {
        if n < 10 {
            assert(final(s)@ =~= old(s)@ + decimal(n as nat));
        } else {
            assert(final(s)@ =~= old(s)@ + decimal(n as nat));
        }
    }
}

/// Appends two upper-case hexadecimal digits of a byte.
pub fn push_hex_u8(s: &mut String, b: u8)
    ensures
        final(s)@ == old(s)@ + hex_byte_upper(b),
{
    push_char(s, hex_nibble_char_upper(b / 16));
    push_char(s, hex_nibble_char_upper(b % 16));
    assert(final(s)@ =~= old(s)@ + hex_byte_upper(b));
}

/// Appends four upper-case hexadecimal digits of a 16-bit value.
pub fn push_hex_u16(s: &mut String, v: u16)
    ensures
        final(s)@ == old(s)@ + hex4_upper(v),
{
    push_char(s, hex_nibble_char_upper((v / 4096) as u8));
    push_char(s, hex_nibble_char_upper((v / 256 % 16) as u8));
    push_char(s, hex_nibble_char_upper((v / 16 % 16) as u8));
    push_char(s, hex_nibble_char_upper((v % 16) as u8));
    assert(final(s)@ =~= old(s)@ + hex4_upper(v));
}

/// Lower-case hexadecimal digits of a number, most significant first.
pub open spec fn hex_lower(n: nat) -> Seq<char>
    decreases n,
{
    if n < 16 {
        seq![hex_digit_lower(n as int)]
    } else {
        hex_lower(n / 16).push(hex_digit_lower((n % 16) as int))
    }
}

/// The lower-case hexadecimal digit of a value below 16.
pub fn hex_nibble_char_lower(v: u8) -> (c: char)
    requires
        v < 16,
    ensures
        c == hex_digit_lower(v as int),
{
    if v < 10 {
        (48 + v) as char
    } else {
        (87 + v) as char
    }
}

/// Appends the lower-case hexadecimal digits of a number.
pub fn push_hex_lower(s: &mut String, n: u128)
    ensures
        final(s)@ == old(s)@ + hex_lower(n as nat),
    decreases n,
{
    if n >= 16 {
        push_hex_lower(s, n / 16);
    }
    let d = hex_nibble_char_lower((n % 16) as u8);
    push_char(s, d);
    assert(final(s)@ =~= old(s)@ + hex_lower(n as nat));
}

/// The system clock's time type.
#[verifier::external_type_specification]
#[verifier::external_body]
pub struct ExSystemTime(std::time::SystemTime);

/// The current time of the system clock (`SystemTime::now`). It depends on
/// the clock; nothing is stated of it.
#[verifier::external_body]
pub(crate) fn system_now() -> std::time::SystemTime {
    std::time::SystemTime::now()
}

/// The time from the Unix epoch to `t` (`SystemTime::duration_since` with
/// `UNIX_EPOCH`); none when `t` is before the epoch. Nothing is stated of
/// the duration.
#[verifier::external_body]
pub(crate) fn since_unix_epoch(t: &std::time::SystemTime) -> Option<core::time::Duration> {
    t.duration_since(std::time::UNIX_EPOCH).ok()
}

/// The whole nanoseconds of a duration (`Duration::as_nanos`). Nothing is
/// stated of them.
#[verifier::external_body]
fn duration_nanos(d: &core::time::Duration) -> u128 {
    d.as_nanos()
}

/// The whole seconds of a duration (`Duration::as_secs`). Nothing is
/// stated of them.
#[verifier::external_body]
pub(crate) fn duration_secs(d: &core::time::Duration) -> u64 {
    d.as_secs()
}

/// The nanoseconds of a duration past its whole seconds
/// (`Duration::subsec_nanos`), which std documents as always below one
/// billion.
#[verifier::external_body]
pub(crate) fn duration_subsec_nanos(d: &core::time::Duration) -> (n: u32)
    ensures
        n < 1_000_000_000,
{
    d.subsec_nanos()
}

/// Nanoseconds since the Unix epoch by the system clock, zero when the
/// clock is before it.
pub(crate) fn unix_nanos() -> u128 {
    let now = system_now();
    match since_unix_epoch(&now) {
        Some(d) => duration_nanos(&d),
        None => 0,
    }
}

/// Text that does not end in a '\0' character.
pub open spec fn no_trailing_nul(s: Seq<char>) -> bool {
    s.len() == 0 || s.last() != '\0'
}

/// A text that fits a fixed-length field: its UTF-8 bytes fit, and it does
/// not end in '\0' (which the reader would take for padding).
pub open spec fn fits_field(s: Seq<char>, n: nat) -> bool {
    encode_utf8(s).len() <= n && no_trailing_nul(s)
}

/// UTF-8 encoding distributes over concatenation.
pub proof fn lemma_encode_utf8_concat(a: Seq<char>, b: Seq<char>)
    ensures
        encode_utf8(a + b) == encode_utf8(a) + encode_utf8(b),
    decreases a.len(),
{
    if a.len() == 0 {
        assert(a + b =~= b);
        assert(encode_utf8(a) =~= Seq::<u8>::empty());
        assert(encode_utf8(a) + encode_utf8(b) =~= encode_utf8(b));
    } else {
        lemma_encode_utf8_concat(a.drop_first(), b);
        assert((a + b).drop_first() =~= a.drop_first() + b);
        assert((a + b)[0] == a[0]);
    }
}

/// '\0' characters encode to zero bytes.
pub proof fn lemma_encode_nuls(k: nat)
    ensures
        encode_utf8(Seq::new(k, |i: int| '\0')) == Seq::new(k, |i: int| 0u8),
    decreases k,
{
    let s = Seq::new(k, |i: int| '\0');
    if k == 0 {
        assert(encode_utf8(s) =~= Seq::<u8>::empty());
        assert(Seq::new(k, |i: int| 0u8) =~= Seq::<u8>::empty());
    } else {
        lemma_encode_nuls((k - 1) as nat);
        assert(s.drop_first() =~= Seq::new((k - 1) as nat, |i: int| '\0'));
        assert(('\0' as u32) == 0);
        assert((0u32 & 0x7F) as u8 == 0u8) by (bit_vector);
        assert(encode_scalar(0u32) =~= seq![0u8]);
        assert(Seq::new(k, |i: int| 0u8) =~= seq![0u8] + Seq::new((k - 1) as nat, |i: int| 0u8));
    }
}

proof fn lemma_trim_nuls_suffix(s: Seq<char>, k: nat)
    requires
        no_trailing_nul(s),
    ensures
        trim_trailing_nuls(s + Seq::new(k, |i: int| '\0')) == s,
    decreases k,
{
    let t = s + Seq::new(k, |i: int| '\0');
    if k == 0 {
        assert(t =~= s);
    } else {
        assert(t.drop_last() =~= s + Seq::new((k - 1) as nat, |i: int| '\0'));
        lemma_trim_nuls_suffix(s, (k - 1) as nat);
    }
}

/// Trimming leaves a text without a trailing '\0' as it is.
pub proof fn lemma_trim_nuls_none(s: Seq<char>)
    requires
        no_trailing_nul(s),
    ensures
        trim_trailing_nuls(s) == s,
{
}

/// A text that fits a fixed-length field reads back from it unchanged.
pub proof fn lemma_field_roundtrip(s: Seq<char>, n: nat)
    requires
        fits_field(s, n),
    ensures
        field_text(fit_bytes(encode_utf8(s), n)) == s,
{
    let k = (n - encode_utf8(s).len()) as nat;
    let nuls = Seq::new(k, |i: int| '\0');
    lemma_encode_nuls(k);
    lemma_encode_utf8_concat(s, nuls);
    assert(fit_bytes(encode_utf8(s), n) =~= encode_utf8(s + nuls));
    vstd::utf8::encode_utf8_decode_utf8(s + nuls);
    vstd::utf8::encode_utf8_valid_utf8(s + nuls);
    lemma_trim_nuls_suffix(s, k);
}

/// A text without a trailing '\0' reads back from its own UTF-8 bytes.
pub proof fn lemma_text_roundtrip(s: Seq<char>)
    requires
        no_trailing_nul(s),
    ensures
        field_text(encode_utf8(s)) == s,
{
    vstd::utf8::encode_utf8_decode_utf8(s);
    vstd::utf8::encode_utf8_valid_utf8(s);
    lemma_trim_nuls_suffix(s, 0);
    assert(s + Seq::new(0, |i: int| '\0') =~= s);
}

/// Hexadecimal digits are ASCII characters.
pub proof fn lemma_hex_lower_ascii(n: nat)
    ensures
        is_ascii_chars(hex_lower(n)),
    decreases n,
{
    let h = hex_lower(n);
    if n >= 16 {
        lemma_hex_lower_ascii(n / 16);
    }
    assert forall|i: int| 0 <= i < h.len() implies '\0' <= #[trigger] h[i] <= '\u{7f}' by {
        let v: int = if n < 16 { n as int } else if i == h.len() - 1 { (n % 16) as int } else { -1 };
        if v >= 0 {
            if v < 10 {
                assert(((48 + v) as char) as u32 == 48 + v);
            } else {
                assert(((87 + v) as char) as u32 == 87 + v);
            }
        } else {
            assert(h[i] == hex_lower(n / 16)[i]);
        }
    }
}

/// Whether a character is Unicode White_Space, as `char::is_whitespace`
/// documents it.
pub open spec fn is_white_space(c: char) -> bool {
    let n = c as u32;
    ||| 0x09 <= n <= 0x0D
    ||| n == 0x20
    ||| n == 0x85
    ||| n == 0xA0
    ||| n == 0x1680
    ||| 0x2000 <= n <= 0x200A
    ||| n == 0x2028
    ||| n == 0x2029
    ||| n == 0x202F
    ||| n == 0x205F
    ||| n == 0x3000
}

/// Text without its leading white space.
pub open spec fn trim_start_ws(s: Seq<char>) -> Seq<char>
    decreases s.len(),
{
    if s.len() > 0 && is_white_space(s[0]) {
        trim_start_ws(s.drop_first())
    } else {
        s
    }
}

/// Text without its trailing white space.
pub open spec fn trim_end_ws(s: Seq<char>) -> Seq<char>
    decreases s.len(),
{
    if s.len() > 0 && is_white_space(s.last()) {
        trim_end_ws(s.drop_last())
    } else {
        s
    }
}

/// Text without leading and trailing white space.
pub open spec fn trimmed(s: Seq<char>) -> Seq<char> {
    trim_end_ws(trim_start_ws(s))
}

/// Removes leading and trailing white space (`str::trim`).
#[verifier::external_body]
pub(crate) fn trim_whitespace(s: &str) -> (r: &str)
    ensures
        r@ == trimmed(s@),
{
    s.trim()
}

/// What `str::to_lowercase` makes of a text (Unicode lower case).
pub uninterp spec fn unicode_lowercase(s: Seq<char>) -> Seq<char>;

/// Lower-cases text by Unicode rules (`str::to_lowercase`). The result is
/// named, not stated.
#[verifier::external_body]
pub(crate) fn to_lowercase(s: &str) -> (r: String)
    ensures
        r@ == unicode_lowercase(s@),
{
    s.to_lowercase()
}

} // verus!
