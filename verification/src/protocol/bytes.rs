//! Big-endian integers and small byte-vector helpers.

use vstd::prelude::*;

verus! {

/// Big-endian bytes of a 16-bit value.
pub open spec fn be16(v: u16) -> Seq<u8> {
    seq![(v / 256) as u8, (v % 256) as u8]
}

/// Big-endian bytes of a 32-bit value.
pub open spec fn be32(v: u32) -> Seq<u8> {
    seq![
        (v / 0x100_0000) as u8,
        (v / 0x1_0000 % 256) as u8,
        (v / 256 % 256) as u8,
        (v % 256) as u8,
    ]
}

/// The 16-bit value of two big-endian bytes.
pub open spec fn read_be16(s: Seq<u8>, at: int) -> u16 {
    (s[at] * 256 + s[at + 1]) as u16
}

/// The 32-bit value of four big-endian bytes.
pub open spec fn read_be32(s: Seq<u8>, at: int) -> u32 {
    (s[at] * 0x100_0000 + s[at + 1] * 0x1_0000 + s[at + 2] * 256 + s[at + 3]) as u32
}

/// Reading back the bytes of a 16-bit value gives the value.
pub proof fn lemma_be16_roundtrip(v: u16, pre: Seq<u8>, post: Seq<u8>)
    ensures
        read_be16(pre + be16(v) + post, pre.len() as int) == v,
{
    let s = pre + be16(v) + post;
    let n = pre.len() as int;
    assert(s[n] == be16(v)[0]);
    assert(s[n + 1] == be16(v)[1]);
}

/// Reading back the bytes of a 32-bit value gives the value.
pub proof fn lemma_be32_roundtrip(v: u32, pre: Seq<u8>, post: Seq<u8>)
    ensures
        read_be32(pre + be32(v) + post, pre.len() as int) == v,
{
    let s = pre + be32(v) + post;
    let n = pre.len() as int;
    assert(s[n] == be32(v)[0]);
    assert(s[n + 1] == be32(v)[1]);
    assert(s[n + 2] == be32(v)[2]);
    assert(s[n + 3] == be32(v)[3]);
}

/// Appends the big-endian bytes of a 16-bit value.
pub fn push_be16(buf: &mut Vec<u8>, v: u16)
    ensures
        final(buf)@ == old(buf)@ + be16(v),
{
    buf.push((v / 256) as u8);
    buf.push((v % 256) as u8);
    assert(final(buf)@ =~= old(buf)@ + be16(v));
}

/// Appends the big-endian bytes of a 32-bit value.
pub fn push_be32(buf: &mut Vec<u8>, v: u32)
    ensures
        final(buf)@ == old(buf)@ + be32(v),
{
    buf.push((v / 0x100_0000) as u8);
    buf.push((v / 0x1_0000 % 256) as u8);
    buf.push((v / 256 % 256) as u8);
    buf.push((v % 256) as u8);
    assert(final(buf)@ =~= old(buf)@ + be32(v));
}

/// Reads a big-endian 16-bit value.
pub fn get_be16(s: &[u8], at: usize) -> (v: u16)
    requires
        at + 2 <= s@.len(),
    ensures
        v == read_be16(s@, at as int),
{
    (s[at] as u16) * 256 + (s[at + 1] as u16)
}

/// Reads a big-endian 32-bit value.
pub fn get_be32(s: &[u8], at: usize) -> (v: u32)
    requires
        at + 4 <= s@.len(),
    ensures
        v == read_be32(s@, at as int),
{
    (s[at] as u32) * 0x100_0000 + (s[at + 1] as u32) * 0x1_0000 + (s[at + 2] as u32) * 256 + (
    s[at + 3] as u32)
}

/// Appends all bytes of `src`.
pub fn append_bytes(buf: &mut Vec<u8>, src: &[u8])
    ensures
        final(buf)@ == old(buf)@ + src@,
{
    let mut i: usize = 0;
    while i < src.len()
        invariant
            i <= src.len(),
            buf@ == old(buf)@ + src@.take(i as int),
        decreases src.len() - i,
    {
        buf.push(src[i]);
        i = i + 1;
        assert(buf@ =~= old(buf)@ + src@.take(i as int));
    }
    assert(src@.take(i as int) =~= src@);
}

/// Appends `n` zero bytes.
pub fn push_zeros(buf: &mut Vec<u8>, n: usize)
    ensures
        final(buf)@ == old(buf)@ + Seq::new(n as nat, |i: int| 0u8),
{
    let mut i: usize = 0;
    while i < n
        invariant
            i <= n,
            buf@ == old(buf)@ + Seq::new(i as nat, |k: int| 0u8),
        decreases n - i,
    {
        buf.push(0u8);
        i = i + 1;
        assert(buf@ =~= old(buf)@ + Seq::new(i as nat, |k: int| 0u8));
    }
}

} // verus!
