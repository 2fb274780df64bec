//! Framing of JT/T 808 messages: checksum, byte escaping and the
//! `0x7E ... 0x7E` frame around an escaped message.

use vstd::prelude::*;

use crate::protocol::bytes::append_bytes;
use crate::protocol::text::{hex_byte_upper, hex_nibble_char_upper, push_char, push_str};

verus! {

/// Frame delimiter byte.
pub const DELIMITER: u8 = 0x7E;

/// Escape byte.
pub const ESCAPE: u8 = 0x7D;

/// XOR of all bytes of `s`, folded from the left.
pub open spec fn xor_all(s: Seq<u8>) -> u8
    decreases s.len(),
{
    if s.len() == 0 {
        0
    } else {
        xor_all(s.drop_last()) ^ s.last()
    }
}

/// The escaped form of a single byte.
pub open spec fn escape_byte(b: u8) -> Seq<u8> {
    if b == DELIMITER {
        seq![ESCAPE, 0x02u8]
    } else if b == ESCAPE {
        seq![ESCAPE, 0x01u8]
    } else {
        seq![b]
    }
}

/// The escaped form of a byte sequence: each byte escaped in turn.
pub open spec fn escape_spec(d: Seq<u8>) -> Seq<u8>
    decreases d.len(),
{
    if d.len() == 0 {
        Seq::empty()
    } else {
        escape_byte(d[0]) + escape_spec(d.skip(1))
    }
}

/// Error text for an escape byte followed by anything but 0x01 or 0x02.
pub open spec fn invalid_escape_text(b: u8) -> Seq<char> {
    "Invalid escape sequence: 0x7D 0x"@ + hex_byte_upper(b)
}

/// Error text for an escape byte at the very end of the data.
pub open spec fn incomplete_escape_text() -> Seq<char> {
    "Incomplete escape sequence at end of data"@
}

/// Puts `prefix` in front of a successful result; passes an error on.
pub open spec fn prepend_ok(prefix: Seq<u8>, r: Result<Seq<u8>, Seq<char>>) -> Result<Seq<u8>, Seq<char>> {
    match r {
        Ok(x) => Ok(prefix + x),
        Err(e) => Err(e),
    }
}

/// Reverses the escape transform, reading from the front; the first bad
/// escape sequence decides the error.
pub open spec fn unescape_spec(p: Seq<u8>) -> Result<Seq<u8>, Seq<char>>
    decreases p.len(),
{
    if p.len() == 0 {
        Ok(Seq::empty())
    } else if p[0] == ESCAPE {
        if p.len() < 2 {
            Err(incomplete_escape_text())
        } else if p[1] == 0x01 {
            prepend_ok(seq![ESCAPE], unescape_spec(p.skip(2)))
        } else if p[1] == 0x02 {
            prepend_ok(seq![DELIMITER], unescape_spec(p.skip(2)))
        } else {
            Err(invalid_escape_text(p[1]))
        }
    } else {
        prepend_ok(seq![p[0]], unescape_spec(p.skip(1)))
    }
}

/// The complete frame of a message: delimiter, escaped message followed by
/// its checksum, delimiter.
pub open spec fn frame_spec(m: Seq<u8>) -> Seq<u8> {
    seq![DELIMITER] + escape_spec(m.push(xor_all(m))) + seq![DELIMITER]
}

/// Index of the first delimiter at or after `start`, or -1 when there is none.
pub open spec fn first_delimiter(s: Seq<u8>, start: int) -> int
    decreases s.len() - start,
{
    if start < 0 || start >= s.len() {
        -1
    } else if s[start] == DELIMITER {
        start
    } else {
        first_delimiter(s, start + 1)
    }
}

/// What `decode_message` gives back for a buffer: the message and the
/// bytes that follow its frame, or nothing.
pub open spec fn decode_spec(buf: Seq<u8>) -> Option<(Seq<u8>, Seq<u8>)> {
    if buf.len() < 6 || buf[0] != DELIMITER {
        None
    } else {
        let i = first_delimiter(buf, 1);
        if i < 0 {
            None
        } else {
            let payload = buf.subrange(1, i);
            let rest = buf.skip(i + 1);
            if payload.len() == 0 {
                Some((Seq::empty(), rest))
            } else {
                match unescape_spec(payload) {
                    Err(_) => None,
                    Ok(u) => {
                        if u.len() < 2 {
                            None
                        } else if xor_all(u.drop_last()) != u.last() {
                            None
                        } else {
                            Some((u.drop_last(), rest))
                        }
                    },
                }
            }
        }
    }
}

proof fn lemma_xor_all_push(s: Seq<u8>, b: u8)
    ensures
        xor_all(s.push(b)) == xor_all(s) ^ b,
{
    assert(s.push(b).drop_last() =~= s);
}

/// Escaping distributes over concatenation.
pub proof fn lemma_escape_concat(a: Seq<u8>, b: Seq<u8>)
    ensures
        escape_spec(a + b) == escape_spec(a) + escape_spec(b),
    decreases a.len(),
{
    if a.len() == 0 {
        assert(a + b =~= b);
        assert(escape_spec(a) + escape_spec(b) =~= escape_spec(b));
    } else {
        lemma_escape_concat(a.skip(1), b);
        assert((a + b).skip(1) =~= a.skip(1) + b);
        assert((a + b)[0] == a[0]);
        assert(escape_spec(a + b) =~= escape_byte(a[0]) + escape_spec(a.skip(1) + b));
        assert(escape_spec(a) + escape_spec(b) =~= escape_byte(a[0]) + (escape_spec(a.skip(1))
            + escape_spec(b)));
    }
}

proof fn lemma_escape_push(a: Seq<u8>, b: u8)
    ensures
        escape_spec(a.push(b)) == escape_spec(a) + escape_byte(b),
{
    lemma_escape_concat(a, seq![b]);
    assert(a.push(b) =~= a + seq![b]);
    let e = seq![b];
    assert(e[0] == b);
    assert(e.skip(1) =~= Seq::<u8>::empty());
    assert(escape_spec(e.skip(1)) =~= Seq::<u8>::empty());
    assert(escape_spec(e) =~= escape_byte(b) + Seq::<u8>::empty());
    assert(escape_spec(e) =~= escape_byte(b));
}

/// Escaping never shortens data.
pub proof fn lemma_escape_len(d: Seq<u8>)
    ensures
        escape_spec(d).len() >= d.len(),
    decreases d.len(),
{
    if d.len() > 0 {
        lemma_escape_len(d.skip(1));
    }
}

/// No escaped sequence holds the delimiter.
pub proof fn lemma_escape_no_delimiter(d: Seq<u8>)
    ensures
        forall|k: int| 0 <= k < escape_spec(d).len() ==> escape_spec(d)[k] != DELIMITER,
    decreases d.len(),
{
    if d.len() > 0 {
        lemma_escape_no_delimiter(d.skip(1));
        let e = escape_spec(d);
        assert(e =~= escape_byte(d[0]) + escape_spec(d.skip(1)));
        assert forall|k: int| 0 <= k < e.len() implies e[k] != DELIMITER by {
            if k >= escape_byte(d[0]).len() {
                assert(e[k] == escape_spec(d.skip(1))[k - escape_byte(d[0]).len()]);
            }
        }
    }
}

/// Unescaping undoes escaping.
pub proof fn lemma_unescape_escape(d: Seq<u8>)
    ensures
        unescape_spec(escape_spec(d)) == Ok::<Seq<u8>, Seq<char>>(d),
    decreases d.len(),
{
    if d.len() > 0 {
        lemma_unescape_escape(d.skip(1));
        let e = escape_spec(d);
        let t = escape_spec(d.skip(1));
        assert(e =~= escape_byte(d[0]) + t);
        if d[0] == DELIMITER || d[0] == ESCAPE {
            assert(e.skip(2) =~= t);
        } else {
            assert(e.skip(1) =~= t);
        }
        assert(seq![d[0]] + d.skip(1) =~= d);
    } else {
        assert(escape_spec(d) =~= Seq::<u8>::empty());
        assert(d =~= Seq::<u8>::empty());
    }
}

/// A delimiter-free sequence that unescapes is the escaped form of what it
/// unescapes to.
pub proof fn lemma_escape_unescape(p: Seq<u8>)
    requires
        forall|k: int| 0 <= k < p.len() ==> p[k] != DELIMITER,
        unescape_spec(p) is Ok,
    ensures
        escape_spec(unescape_spec(p)->Ok_0) == p,
    decreases p.len(),
{
    if p.len() == 0 {
        assert(unescape_spec(p)->Ok_0 =~= Seq::<u8>::empty());
        assert(escape_spec(Seq::<u8>::empty()) =~= p);
    } else if p[0] == ESCAPE {
        let r = p.skip(2);
        assert forall|k: int| 0 <= k < r.len() implies r[k] != DELIMITER by {
            assert(r[k] == p[k + 2]);
        }
        lemma_escape_unescape(r);
        let u = unescape_spec(p)->Ok_0;
        let ur = unescape_spec(r)->Ok_0;
        assert(u.skip(1) =~= ur);
        assert(escape_spec(u) =~= escape_byte(u[0]) + escape_spec(u.skip(1)));
        assert(p =~= seq![p[0], p[1]] + r);
    } else {
        let r = p.skip(1);
        assert forall|k: int| 0 <= k < r.len() implies r[k] != DELIMITER by {
            assert(r[k] == p[k + 1]);
        }
        lemma_escape_unescape(r);
        let u = unescape_spec(p)->Ok_0;
        let ur = unescape_spec(r)->Ok_0;
        assert(u.skip(1) =~= ur);
        assert(escape_spec(u) =~= escape_byte(u[0]) + escape_spec(u.skip(1)));
        assert(p =~= seq![p[0]] + r);
    }
}

proof fn lemma_prepend_empty(r: Result<Seq<u8>, Seq<char>>)
    ensures
        prepend_ok(Seq::empty(), r) == r,
{
    if let Ok(x) = r {
        assert(Seq::<u8>::empty() + x =~= x);
    }
}

proof fn lemma_prepend_assoc(a: Seq<u8>, b: Seq<u8>, r: Result<Seq<u8>, Seq<char>>)
    ensures
        prepend_ok(a, prepend_ok(b, r)) == prepend_ok(a + b, r),
{
    if let Ok(x) = r {
        assert(a + (b + x) =~= (a + b) + x);
    }
}

/// Unescaping never lengthens data.
pub proof fn lemma_unescape_len(p: Seq<u8>)
    ensures
        unescape_spec(p) is Ok ==> unescape_spec(p)->Ok_0.len() <= p.len(),
    decreases p.len(),
{
    if p.len() > 0 {
        if p[0] == ESCAPE {
            if p.len() >= 2 {
                lemma_unescape_len(p.skip(2));
            }
        } else {
            lemma_unescape_len(p.skip(1));
        }
    }
}

/// What `decode_message` gives back is no longer than the buffer.
pub proof fn lemma_decode_len(buf: Seq<u8>)
    ensures
        decode_spec(buf) is Some ==> decode_spec(buf)->Some_0.0.len() <= buf.len()
            && decode_spec(buf)->Some_0.1.len() <= buf.len(),
{
    if decode_spec(buf) is Some {
        let i = first_delimiter(buf, 1);
        lemma_first_delimiter_bounds(buf, 1);
        let payload = buf.subrange(1, i);
        if payload.len() > 0 {
            lemma_unescape_len(payload);
        }
    }
}

proof fn lemma_first_delimiter_skips(s: Seq<u8>, start: int, end: int)
    requires
        0 <= start <= end < s.len(),
        s[end] == DELIMITER,
        forall|k: int| start <= k < end ==> s[k] != DELIMITER,
    ensures
        first_delimiter(s, start) == end,
    decreases end - start,
{
    if start < end {
        lemma_first_delimiter_skips(s, start + 1, end);
    }
}

proof fn lemma_first_delimiter_none(s: Seq<u8>, start: int)
    requires
        0 <= start,
        forall|k: int| start <= k < s.len() ==> s[k] != DELIMITER,
    ensures
        first_delimiter(s, start) == -1,
    decreases s.len() - start,
{
    if start < s.len() {
        lemma_first_delimiter_none(s, start + 1);
    }
}

proof fn lemma_first_delimiter_bounds(s: Seq<u8>, start: int)
    requires
        0 <= start,
    ensures
        first_delimiter(s, start) == -1 || (start <= first_delimiter(s, start) < s.len()
            && s[first_delimiter(s, start)] == DELIMITER && forall|k: int|
            start <= k < first_delimiter(s, start) ==> s[k] != DELIMITER),
        first_delimiter(s, start) == -1 ==> forall|k: int| start <= k < s.len() ==> s[k] != DELIMITER,
    decreases s.len() - start,
{
    if start < s.len() && s[start] != DELIMITER {
        lemma_first_delimiter_bounds(s, start + 1);
    }
}

/// XOR checksum of all bytes.
pub fn calculate_checksum(data: &[u8]) -> (cs: u8)
    ensures
        cs == xor_all(data@),
{
    let mut acc: u8 = 0;
    let mut i: usize = 0;
    while i < data.len()
        invariant
            i <= data.len(),
            acc == xor_all(data@.take(i as int)),
        decreases data.len() - i,
    {
        proof {
            assert(data@.take(i as int + 1) =~= data@.take(i as int).push(data@[i as int]));
            lemma_xor_all_push(data@.take(i as int), data@[i as int]);
        }
        acc = acc ^ data[i];
        i = i + 1;
    }
    assert(data@.take(i as int) =~= data@);
    acc
}

/// Escapes message data: 0x7E becomes 0x7D 0x02, 0x7D becomes 0x7D 0x01.
pub fn escape(data: &[u8]) -> (out: Vec<u8>)
    ensures
        out@ == escape_spec(data@),
{
    let mut out: Vec<u8> = Vec::new();
    let mut i: usize = 0;
    while i < data.len()
        invariant
            i <= data.len(),
            out@ == escape_spec(data@.take(i as int)),
        decreases data.len() - i,
    {
        let b = data[i];
        proof {
            assert(data@.take(i as int + 1) =~= data@.take(i as int).push(b));
            lemma_escape_push(data@.take(i as int), b);
        }
        if b == DELIMITER {
            out.push(ESCAPE);
            out.push(0x02);
        } else if b == ESCAPE {
            out.push(ESCAPE);
            out.push(0x01);
        } else {
            out.push(b);
        }
        i = i + 1;
    }
    assert(data@.take(i as int) =~= data@);
    out
}

fn invalid_escape_error(b: u8) -> (e: String)
    ensures
        e@ == invalid_escape_text(b),
{
    let mut e = String::new();
    push_str(&mut e, "Invalid escape sequence: 0x7D 0x");
    let hi = hex_nibble_char_upper(b / 16);
    let lo = hex_nibble_char_upper(b % 16);
    push_char(&mut e, hi);
    push_char(&mut e, lo);
    e
}

/// Reverses the escape transform.
pub fn unescape(data: &[u8]) -> (res: Result<Vec<u8>, String>)
    ensures
        match res {
            Ok(v) => unescape_spec(data@) == Ok::<Seq<u8>, Seq<char>>(v@),
            Err(e) => unescape_spec(data@) == Err::<Seq<u8>, Seq<char>>(e@),
        },
{
    let mut out: Vec<u8> = Vec::new();
    let mut i: usize = 0;
    proof {
        assert(data@.skip(0) =~= data@);
        lemma_prepend_empty(unescape_spec(data@));
    }
    while i < data.len()
        invariant
            i <= data.len(),
            unescape_spec(data@) == prepend_ok(out@, unescape_spec(data@.skip(i as int))),
        decreases data.len() - i,
    {
        let ghost rest = data@.skip(i as int);
        let b = data[i];
        if b == ESCAPE {
            if i + 1 >= data.len() {
                let mut e = String::new();
                push_str(&mut e, "Incomplete escape sequence at end of data");
                return Err(e);
            }
            let c = data[i + 1];
            proof {
                assert(rest.skip(2) =~= data@.skip(i as int + 2));
            }
            if c == 0x01 {
                proof {
                    assert(out@.push(ESCAPE) =~= out@ + seq![ESCAPE]);
                    lemma_prepend_assoc(out@, seq![ESCAPE], unescape_spec(rest.skip(2)));
                }
                out.push(ESCAPE);
            } else if c == 0x02 {
                proof {
                    assert(out@.push(DELIMITER) =~= out@ + seq![DELIMITER]);
                    lemma_prepend_assoc(out@, seq![DELIMITER], unescape_spec(rest.skip(2)));
                }
                out.push(DELIMITER);
            } else {
                return Err(invalid_escape_error(c));
            }
            i = i + 2;
        } else {
            proof {
                assert(rest.skip(1) =~= data@.skip(i as int + 1));
                assert(out@.push(b) =~= out@ + seq![b]);
                lemma_prepend_assoc(out@, seq![b], unescape_spec(rest.skip(1)));
            }
            out.push(b);
            i = i + 1;
        }
    }
    proof {
        assert(data@.skip(i as int) =~= Seq::<u8>::empty());
        assert(out@ + Seq::<u8>::empty() =~= out@);
    }
    Ok(out)
}

/// Encodes a complete message: delimiter, escaped message and checksum,
/// delimiter.
pub fn encode_message(header_and_body: &[u8]) -> (frame: Vec<u8>)
    ensures
        frame@ == frame_spec(header_and_body@),
{
    let checksum = calculate_checksum(header_and_body);
    let mut payload = vstd::slice::slice_to_vec(header_and_body);
    payload.push(checksum);
    let escaped = escape(payload.as_slice());
    let mut frame: Vec<u8> = Vec::new();
    frame.push(DELIMITER);
    append_bytes(&mut frame, escaped.as_slice());
    frame.push(DELIMITER);
    assert(frame@ =~= frame_spec(header_and_body@));
    frame
}

/// Tries to decode one complete message from the front of a buffer.
/// Gives back the message (without checksum) and the bytes after its frame.
pub fn decode_message(buffer: &[u8]) -> (res: Option<(Vec<u8>, &[u8])>)
    ensures
        match res {
            None => decode_spec(buffer@) is None,
            Some((m, rest)) => decode_spec(buffer@) == Some((m@, rest@)),
        },
{
    if buffer.len() < 6 {
        return None;
    }
    if buffer[0] != DELIMITER {
        return None;
    }
    let mut i: usize = 1;
    while i < buffer.len()
        invariant
            1 <= i <= buffer@.len(),
            buffer@.len() >= 6,
            buffer@[0] == DELIMITER,
            forall|k: int| 1 <= k < i ==> buffer@[k] != DELIMITER,
        decreases buffer.len() - i,
    {
        if buffer[i] == DELIMITER {
            proof {
                lemma_first_delimiter_skips(buffer@, 1, i as int);
            }
            let rest = vstd::slice::slice_subrange(buffer, i + 1, buffer.len());
            assert(rest@ =~= buffer@.skip(i + 1));
            let payload = vstd::slice::slice_subrange(buffer, 1, i);
            if payload.len() == 0 {
                return Some((Vec::new(), rest));
            }
            let unescaped = match unescape(payload) {
                Ok(d) => d,
                Err(_) => return None,
            };
            if unescaped.len() < 2 {
                return None;
            }
            let msg_len = unescaped.len() - 1;
            let msg = vstd::slice::slice_subrange(unescaped.as_slice(), 0, msg_len);
            assert(msg@ =~= unescaped@.drop_last());
            let computed = calculate_checksum(msg);
            if computed != unescaped[msg_len] {
                return None;
            }
            return Some((vstd::slice::slice_to_vec(msg), rest));
        }
        i = i + 1;
    }
    proof {
        lemma_first_delimiter_none(buffer@, 1);
    }
    None
}

/// Decoding the frame of a non-empty message, followed by any bytes, gives
/// back the message and those bytes, once the buffer is long enough to be
/// looked at (six bytes).
pub proof fn law_frame_roundtrip(m: Seq<u8>, rest: Seq<u8>)
    requires
        m.len() >= 1,
        frame_spec(m).len() + rest.len() >= 6,
    ensures
        decode_spec(frame_spec(m) + rest) == Some((m, rest)),
{
    let u = m.push(xor_all(m));
    let e = escape_spec(u);
    let buf = frame_spec(m) + rest;
    lemma_escape_no_delimiter(u);
    lemma_unescape_escape(u);
    assert(u[0] == m[0]);
    assert(e =~= escape_byte(u[0]) + escape_spec(u.skip(1)));
    assert(e.len() >= 1);
    assert(buf =~= seq![DELIMITER] + e + seq![DELIMITER] + rest);
    assert forall|k: int| 1 <= k < e.len() + 1 implies buf[k] != DELIMITER by {
        assert(buf[k] == e[k - 1]);
    }
    let n = e.len() as int;
    assert(buf[n + 1] == DELIMITER);
    lemma_first_delimiter_skips(buf, 1, n + 1);
    assert(buf.subrange(1, n + 1) =~= e);
    assert(buf.skip(n + 2) =~= rest);
    assert(u.drop_last() =~= m);
}

/// Whatever `decode_message` accepts is a frame followed by the rest of the
/// buffer: the frame of the message it gives back, or, for an empty
/// message, two delimiters with nothing between them.
pub proof fn law_decode_accepts_only_frames(buf: Seq<u8>)
    requires
        decode_spec(buf) is Some,
    ensures
        ({
            let (m, rest) = decode_spec(buf)->Some_0;
            if m.len() == 0 {
                buf == seq![DELIMITER, DELIMITER] + rest
            } else {
                buf == frame_spec(m) + rest
            }
        }),
{
    let i = first_delimiter(buf, 1);
    lemma_first_delimiter_bounds(buf, 1);
    let payload = buf.subrange(1, i);
    let rest = buf.skip(i + 1);
    if payload.len() == 0 {
        assert(buf =~= seq![DELIMITER, DELIMITER] + rest);
    } else {
        assert forall|k: int| 0 <= k < payload.len() implies payload[k] != DELIMITER by {
            assert(payload[k] == buf[k + 1]);
        }
        lemma_escape_unescape(payload);
        let u = unescape_spec(payload)->Ok_0;
        let m = u.drop_last();
        assert(m.push(xor_all(m)) =~= u);
        assert(buf =~= seq![DELIMITER] + payload + seq![DELIMITER] + rest);
    }
}

} // verus!
