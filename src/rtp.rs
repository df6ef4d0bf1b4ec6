use vstd::prelude::*;

use crate::bytes::{be_u16, be_u32, header_version, parse_be_u16, parse_be_u32, version_of};
use crate::error::CodecError;

verus! {

/// The fixed part of an RTP header and its CSRC list.
#[derive(Debug, Clone, PartialEq, Eq)]
pub struct RtpHeader {
    pub marker: bool,
    pub payload_type: u8,
    pub sequence: u16,
    pub timestamp: u32,
    pub ssrc: u32,
    pub csrcs: Vec<u32>,
}

/// Number of CSRC entries announced by the first header byte.
pub open spec fn csrc_count(b: u8) -> u8 {
    b & 0x0fu8
}

pub open spec fn csrcs_at(s: Seq<u8>, n: nat) -> Seq<u32> {
    Seq::new(n, |i: int| be_u32(s, 12 + 4 * i))
}

/// The header that `s` starts with, or why it has none.
pub open spec fn rtp_header_of(s: Seq<u8>) -> Result<(bool, u8, u16, u32, u32, Seq<u32>), CodecError> {
    if s.len() < 12 {
        Err(CodecError::BufferTooShort)
    } else if version_of(s[0]) != 2 {
        Err(CodecError::InvalidVersion)
    } else if s.len() < 12 + 4 * csrc_count(s[0]) {
        Err(CodecError::BufferTooShort)
    } else {
        Ok(
            (
                s[1] >= 128,
                s[1] & 0x7fu8,
                be_u16(s, 2),
                be_u32(s, 4),
                be_u32(s, 8),
                csrcs_at(s, csrc_count(s[0]) as nat),
            ),
        )
    }
}

pub open spec fn header_view(h: RtpHeader) -> (bool, u8, u16, u32, u32, Seq<u32>) {
    (h.marker, h.payload_type, h.sequence, h.timestamp, h.ssrc, h.csrcs@)
}

/// Reads the RTP header at the start of `buf`; the payload is not looked at.
pub fn decode_rtp_header(buf: &[u8]) -> (r: Result<RtpHeader, CodecError>)
    ensures
        match r {
            Ok(h) => rtp_header_of(buf@) == Ok::<
                (bool, u8, u16, u32, u32, Seq<u32>),
                CodecError,
            >(header_view(h)),
            Err(e) => rtp_header_of(buf@) == Err::<
                (bool, u8, u16, u32, u32, Seq<u32>),
                CodecError,
            >(e),
        },
{
    let len = buf.len();
    if len < 12 {
        return Err(CodecError::BufferTooShort);
    }
    if header_version(buf[0]) != 2 {
        return Err(CodecError::InvalidVersion);
    }
    let cc = (buf[0] & 0x0fu8) as usize;
    if len < 12 + 4 * cc {
        return Err(CodecError::BufferTooShort);
    }
    let mut csrcs: Vec<u32> = Vec::new();
    let mut i: usize = 0;
    while i < cc
        invariant
            i <= cc,
            len == buf@.len(),
            12 + 4 * cc <= len,
            csrcs@ == csrcs_at(buf@, i as nat),
        decreases cc - i,
    {
        csrcs.push(parse_be_u32(buf, 12 + 4 * i));
        i = i + 1;
        assert(csrcs@ =~= csrcs_at(buf@, i as nat));
    }
    Ok(
        RtpHeader {
            marker: buf[1] >= 128,
            payload_type: buf[1] & 0x7fu8,
            sequence: parse_be_u16(buf, 2),
            timestamp: parse_be_u32(buf, 4),
            ssrc: parse_be_u32(buf, 8),
            csrcs,
        },
    )
}

} // verus!
