use vstd::prelude::*;

use crate::error::CodecError;

verus! {

/// Big-endian value of the two bytes of `s` at `off`.
pub open spec fn be_u16(s: Seq<u8>, off: int) -> u16 {
    ((s[off] as u16) << 8u16) | (s[off + 1] as u16)
}

/// Big-endian value of the four bytes of `s` at `off`.
pub open spec fn be_u32(s: Seq<u8>, off: int) -> u32 {
    ((s[off] as u32) << 24u32) | ((s[off + 1] as u32) << 16u32) | ((s[off + 2] as u32) << 8u32)
        | (s[off + 3] as u32)
}

/// Big-endian value of the eight bytes of `s` at `off`.
pub open spec fn be_u64(s: Seq<u8>, off: int) -> u64 {
    ((be_u32(s, off) as u64) << 32u64) | (be_u32(s, off + 4) as u64)
}

pub open spec fn u16_bytes(v: u16) -> Seq<u8> {
    seq![(v >> 8u16) as u8, v as u8]
}

pub open spec fn u32_bytes(v: u32) -> Seq<u8> {
    seq![(v >> 24u32) as u8, (v >> 16u32) as u8, (v >> 8u32) as u8, v as u8]
}

pub open spec fn u64_bytes(v: u64) -> Seq<u8> {
    u32_bytes((v >> 32u64) as u32) + u32_bytes(v as u32)
}

/// `n` zero bytes.
pub open spec fn zeros(n: nat) -> Seq<u8> {
    Seq::new(n, |i: int| 0u8)
}

/// Number of zero bytes that bring `n` bytes up to a multiple of four.
pub open spec fn pad4(n: int) -> int {
    (4 - n % 4) % 4
}

pub proof fn lemma_u16_bytes(s: Seq<u8>, off: int, v: u16)
    requires
        0 <= off,
        off + 2 <= s.len(),
        s.subrange(off, off + 2) == u16_bytes(v),
    ensures
        be_u16(s, off) == v,
{
    assert(s[off] == u16_bytes(v)[0]);
    assert(s[off + 1] == u16_bytes(v)[1]);
    assert((((v >> 8u16) as u8) as u16) << 8u16 | ((v as u8) as u16) == v) by (bit_vector);
}

pub proof fn lemma_u32_bytes(s: Seq<u8>, off: int, v: u32)
    requires
        0 <= off,
        off + 4 <= s.len(),
        s.subrange(off, off + 4) == u32_bytes(v),
    ensures
        be_u32(s, off) == v,
{
    assert(s[off] == u32_bytes(v)[0]);
    assert(s[off + 1] == u32_bytes(v)[1]);
    assert(s[off + 2] == u32_bytes(v)[2]);
    assert(s[off + 3] == u32_bytes(v)[3]);
    assert((((v >> 24u32) as u8) as u32) << 24u32 | (((v >> 16u32) as u8) as u32) << 16u32
        | (((v >> 8u32) as u8) as u32) << 8u32 | ((v as u8) as u32) == v) by (bit_vector);
}

pub proof fn lemma_u64_bytes(s: Seq<u8>, off: int, v: u64)
    requires
        0 <= off,
        off + 8 <= s.len(),
        s.subrange(off, off + 8) == u64_bytes(v),
    ensures
        be_u64(s, off) == v,
{
    assert(s.subrange(off, off + 4) =~= s.subrange(off, off + 8).subrange(0, 4));
    assert(s.subrange(off + 4, off + 8) =~= s.subrange(off, off + 8).subrange(4, 8));
    assert(u64_bytes(v).subrange(0, 4) =~= u32_bytes((v >> 32u64) as u32));
    assert(u64_bytes(v).subrange(4, 8) =~= u32_bytes(v as u32));
    lemma_u32_bytes(s, off, (v >> 32u64) as u32);
    lemma_u32_bytes(s, off + 4, v as u32);
    assert(((((v >> 32u64) as u32) as u64) << 32u64) | ((v as u32) as u64) == v) by (bit_vector);
}

/// Reads the big-endian `u32` at `offset`; the caller guarantees the bytes are there.
pub fn parse_be_u32(packet: &[u8], offset: usize) -> (r: u32)
    requires
        offset + 4 <= packet@.len(),
    ensures
        r == be_u32(packet@, offset as int),
{
    ((packet[offset] as u32) << 24u32) | ((packet[offset + 1] as u32) << 16u32) | ((
    packet[offset + 2] as u32) << 8u32) | (packet[offset + 3] as u32)
}

/// Reads the big-endian `u64` at `offset`; the caller guarantees the bytes are there.
pub fn parse_be_u64(packet: &[u8], offset: usize) -> (r: u64)
    requires
        offset + 8 <= packet@.len(),
    ensures
        r == be_u64(packet@, offset as int),
{
    // a slice's length is a usize, so the offsets computed below fit in one
    let _ = packet.len();
    let hi = parse_be_u32(packet, offset);
    let lo = parse_be_u32(packet, offset + 4);
    ((hi as u64) << 32u64) | (lo as u64)
}

/// Reads the big-endian `u16` at `offset`; the caller guarantees the bytes are there.
pub fn parse_be_u16(packet: &[u8], offset: usize) -> (r: u16)
    requires
        offset + 2 <= packet@.len(),
    ensures
        r == be_u16(packet@, offset as int),
{
    ((packet[offset] as u16) << 8u16) | (packet[offset + 1] as u16)
}

/// Bounds-checked big-endian `u32` read.
pub fn read_u32_be(buf: &[u8], offset: usize) -> (r: Result<u32, CodecError>)
    ensures
        offset + 4 <= buf@.len() ==> r == Ok::<u32, CodecError>(be_u32(buf@, offset as int)),
        offset + 4 > buf@.len() ==> r == Err::<u32, CodecError>(CodecError::BufferTooShort),
{
    if offset > buf.len() || buf.len() - offset < 4 {
        Err(CodecError::BufferTooShort)
    } else {
        Ok(parse_be_u32(buf, offset))
    }
}

/// Bounds-checked big-endian `u64` read.
pub fn read_u64_be(buf: &[u8], offset: usize) -> (r: Result<u64, CodecError>)
    ensures
        offset + 8 <= buf@.len() ==> r == Ok::<u64, CodecError>(be_u64(buf@, offset as int)),
        offset + 8 > buf@.len() ==> r == Err::<u64, CodecError>(CodecError::BufferTooShort),
{
    if offset > buf.len() || buf.len() - offset < 8 {
        Err(CodecError::BufferTooShort)
    } else {
        Ok(parse_be_u64(buf, offset))
    }
}

pub fn write_u16_be(out: &mut Vec<u8>, v: u16)
    ensures
        final(out)@ == old(out)@ + u16_bytes(v),
{
    out.push((v >> 8u16) as u8);
    out.push(v as u8);
    assert(final(out)@ =~= old(out)@ + u16_bytes(v));
}

pub fn write_u32_be(out: &mut Vec<u8>, v: u32)
    ensures
        final(out)@ == old(out)@ + u32_bytes(v),
{
    out.push((v >> 24u32) as u8);
    out.push((v >> 16u32) as u8);
    out.push((v >> 8u32) as u8);
    out.push(v as u8);
    assert(final(out)@ =~= old(out)@ + u32_bytes(v));
}

pub fn write_u64_be(out: &mut Vec<u8>, v: u64)
    ensures
        final(out)@ == old(out)@ + u64_bytes(v),
{
    write_u32_be(out, (v >> 32u64) as u32);
    write_u32_be(out, v as u32);
    assert(final(out)@ =~= old(out)@ + u64_bytes(v));
}

/// Appends `n` zero bytes.
pub fn write_zeros(out: &mut Vec<u8>, n: usize)
    ensures
        final(out)@ == old(out)@ + zeros(n as nat),
{
    let mut i: usize = 0;
    while i < n
        invariant
            i <= n,
            out@ == old(out)@ + zeros(i as nat),
        decreases n - i,
    {
        out.push(0u8);
        i = i + 1;
        assert(out@ =~= old(out)@ + zeros(i as nat));
    }
}

/// Version field of a header's first byte (bits 7-6).
pub open spec fn version_of(b: u8) -> u8 {
    b >> 6u8
}

/// Padding flag of a header's first byte (bit 5).
pub open spec fn padding_of(b: u8) -> bool {
    (b >> 5u8) & 1u8 == 1u8
}

/// Count field of a header's first byte (bits 4-0).
pub open spec fn count_of(b: u8) -> u8 {
    b & 0x1fu8
}

/// First header byte with version 2, the padding flag and a count.
pub open spec fn header_byte_spec(padding: bool, count: u8) -> u8 {
    0x80u8 | (if padding { 0x20u8 } else { 0u8 }) | count
}

pub fn header_version(b: u8) -> (r: u8)
    ensures
        r == version_of(b),
        r < 4,
{
    assert(b >> 6u8 < 4) by (bit_vector);
    b >> 6u8
}

pub fn header_padding(b: u8) -> (r: bool)
    ensures
        r == padding_of(b),
{
    (b >> 5u8) & 1u8 == 1u8
}

pub fn header_count(b: u8) -> (r: u8)
    ensures
        r == count_of(b),
        r < 32,
{
    assert(b & 0x1fu8 < 32) by (bit_vector);
    b & 0x1fu8
}

/// Packs version 2, the padding flag and a count into a header's first byte.
pub fn header_byte(padding: bool, count: u8) -> (r: u8)
    requires
        count < 32,
    ensures
        r == header_byte_spec(padding, count),
        version_of(r) == 2,
        padding_of(r) == padding,
        count_of(r) == count,
{
    let p: u8 = if padding { 0x20u8 } else { 0u8 };
    let r = 0x80u8 | p | count;
    assert(p == 0x20u8 || p == 0u8);
    assert((p == 0x20u8 || p == 0u8) && count < 32 ==> ((0x80u8 | p | count) >> 6u8 == 2u8
        && (((0x80u8 | p | count) >> 5u8) & 1u8 == 1u8) == (p == 0x20u8)
        && (0x80u8 | p | count) & 0x1fu8 == count)) by (bit_vector);
    r
}

} // verus!
