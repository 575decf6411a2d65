//! Little-endian integer encodings.
use vstd::prelude::*;

verus! {

pub open spec fn le16(v: u16) -> Seq<u8> {
    seq![(v % 256) as u8, (v / 256) as u8]
}

pub open spec fn le32(v: u32) -> Seq<u8> {
    seq![
        (v % 256) as u8,
        ((v / 256) % 256) as u8,
        ((v / 65536) % 256) as u8,
        (v / 16777216) as u8,
    ]
}

pub open spec fn le64(v: u64) -> Seq<u8> {
    le32((v % 0x1_0000_0000) as u32) + le32((v / 0x1_0000_0000) as u32)
}

/// The integer that two little-endian bytes starting at `i` denote.
pub open spec fn read16(s: Seq<u8>, i: int) -> int {
    s[i] as int + 256 * s[i + 1] as int
}

/// The integer that four little-endian bytes starting at `i` denote.
pub open spec fn read32(s: Seq<u8>, i: int) -> int {
    s[i] as int + 256 * s[i + 1] as int + 65536 * s[i + 2] as int + 16777216 * s[i + 3] as int
}

/// The integer that eight little-endian bytes starting at `i` denote.
pub open spec fn read64(s: Seq<u8>, i: int) -> int {
    read32(s, i) + 0x1_0000_0000 * read32(s, i + 4)
}

pub proof fn lemma_read16(v: u16)
    ensures
        read16(le16(v), 0) == v,
{
    assert(v == (v % 256) + 256 * (v / 256)) by (nonlinear_arith);
}

pub proof fn lemma_read32(v: u32)
    ensures
        read32(le32(v), 0) == v,
{
    let b0 = v % 256;
    let b1 = (v / 256) % 256;
    let b2 = (v / 65536) % 256;
    let b3 = v / 16777216;
    assert(v == b0 + 256 * b1 + 65536 * b2 + 16777216 * b3) by (bit_vector)
        requires
            b0 == v % 256,
            b1 == (v / 256) % 256,
            b2 == (v / 65536) % 256,
            b3 == v / 16777216,
    ;
}

pub proof fn lemma_read64(v: u64)
    ensures
        read64(le64(v), 0) == v,
{
    let lo = (v % 0x1_0000_0000) as u32;
    let hi = (v / 0x1_0000_0000) as u32;
    lemma_read32(lo);
    lemma_read32(hi);
    let s = le64(v);
    assert(read32(s, 0) == read32(le32(lo), 0));
    assert(read32(s, 4) == read32(le32(hi), 0));
    assert(v == lo + 0x1_0000_0000 * hi) by (nonlinear_arith)
        requires
            lo == v % 0x1_0000_0000,
            hi == v / 0x1_0000_0000,
    ;
}

pub fn push_le16(buf: &mut Vec<u8>, v: u16)
    ensures
        final(buf)@ == old(buf)@ + le16(v),
{
    buf.push((v % 256) as u8);
    buf.push((v / 256) as u8);
    assert(final(buf)@ =~= old(buf)@ + le16(v));
}

pub fn push_le32(buf: &mut Vec<u8>, v: u32)
    ensures
        final(buf)@ == old(buf)@ + le32(v),
{
    buf.push((v % 256) as u8);
    buf.push(((v / 256) % 256) as u8);
    buf.push(((v / 65536) % 256) as u8);
    buf.push((v / 16777216) as u8);
    assert(final(buf)@ =~= old(buf)@ + le32(v));
}

pub fn push_le64(buf: &mut Vec<u8>, v: u64)
    ensures
        final(buf)@ == old(buf)@ + le64(v),
{
    push_le32(buf, (v % 0x1_0000_0000) as u32);
    push_le32(buf, (v / 0x1_0000_0000) as u32);
    assert(final(buf)@ =~= old(buf)@ + le64(v));
}

pub fn push_all(buf: &mut Vec<u8>, src: &[u8])
    ensures
        final(buf)@ == old(buf)@ + src@,
{
    let n = src.len();
    let mut i: usize = 0;
    while i < n
        invariant
            n == src@.len(),
            i <= n,
            buf@ == old(buf)@ + src@.subrange(0, i as int),
        decreases n - i,
    {
        buf.push(src[i]);
        i = i + 1;
        assert(buf@ =~= old(buf)@ + src@.subrange(0, i as int));
    }
    assert(src@.subrange(0, n as int) =~= src@);
}

pub fn get16(s: &[u8], i: usize) -> (r: u16)
    requires
        i + 2 <= s@.len(),
    ensures
        r == read16(s@, i as int),
{
    s[i] as u16 + 256 * (s[i + 1] as u16)
}

pub fn get32(s: &[u8], i: usize) -> (r: u32)
    requires
        i + 4 <= s@.len(),
    ensures
        r == read32(s@, i as int),
{
    s[i] as u32 + 256 * (s[i + 1] as u32) + 65536 * (s[i + 2] as u32) + 16777216 * (s[i + 3] as u32)
}

pub fn get64(s: &[u8], i: usize) -> (r: u64)
    requires
        i + 8 <= s@.len(),
    ensures
        r == read64(s@, i as int),
{
    let n = s.len();
    assert(i + 8 <= n);
    let lo = get32(s, i) as u64;
    let hi = get32(s, i + 4) as u64;
    lo + 0x1_0000_0000 * hi
}

} // verus!
