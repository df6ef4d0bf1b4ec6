use vstd::prelude::*;
use vstd::slice::slice_subrange;

use crate::bytes::{be_u16, parse_be_u16, version_of};
use crate::decode::decode_packet;
use crate::encode::{encode_packet, write_bytes};
use crate::error::CodecError;
use crate::packet::{
    known_type, packet_bytes, packet_error, parse_packet, well_formed, Packet, PacketView, PT_APP,
    PT_SR,
};
use crate::round_trip::lemma_packet_round_trip;

verus! {

/// The packets of one datagram, in wire order, and the type codes of the
/// packets that were skipped because their type is not interpreted.
#[derive(Debug, Clone, PartialEq, Eq)]
pub struct CompoundRtcpPacket {
    pub packets: Vec<Packet>,
    pub skipped: Vec<u8>,
}

pub open spec fn packets_view(ps: Seq<Packet>) -> Seq<PacketView> {
    ps.map_values(|p: Packet| p@)
}

pub open spec fn is_report(p: PacketView) -> bool {
    p is Sr || p is Rr
}

/// Decodes the packets that fill `s` exactly, one after another.
pub open spec fn parse_sequence(s: Seq<u8>) -> Result<(Seq<PacketView>, Seq<u8>), CodecError>
    decreases s.len(),
{
    if s.len() == 0 {
        Ok((seq![], seq![]))
    } else if s.len() < 4 {
        Err(CodecError::BufferTooShort)
    } else {
        let total = 4 * (be_u16(s, 2) + 1);
        if total > s.len() {
            Err(CodecError::LengthMismatch)
        } else {
            let rest = parse_sequence(s.subrange(total, s.len() as int));
            if !known_type(s[1]) {
                match rest {
                    Ok((ps, sk)) => Ok((ps, seq![s[1]] + sk)),
                    Err(e) => Err(e),
                }
            } else {
                match parse_packet(s.subrange(0, total)) {
                    Err(e) => Err(e),
                    Ok(p) => match rest {
                        Ok((ps, sk)) => Ok((seq![p] + ps, sk)),
                        Err(e) => Err(e),
                    },
                }
            }
        }
    }
}

/// What a compound buffer decodes to: its packets and the skipped type codes.
pub open spec fn parse_compound(s: Seq<u8>) -> Result<(Seq<PacketView>, Seq<u8>), CodecError> {
    if s.len() < 4 {
        Err(CodecError::BufferTooShort)
    } else {
        parse_sequence(s)
    }
}

/// The bytes of a sequence of packets, or the error of the first that cannot be encoded.
pub open spec fn encode_sequence(ps: Seq<PacketView>) -> Result<Seq<u8>, CodecError>
    decreases ps.len(),
{
    if ps.len() == 0 {
        Ok(seq![])
    } else {
        match packet_error(ps[0]) {
            Some(e) => Err(e),
            None => match encode_sequence(ps.drop_first()) {
                Ok(b) => Ok(packet_bytes(ps[0]) + b),
                Err(e) => Err(e),
            },
        }
    }
}

pub open spec fn prepend(
    ps: Seq<PacketView>,
    sk: Seq<u8>,
    r: Result<(Seq<PacketView>, Seq<u8>), CodecError>,
) -> Result<(Seq<PacketView>, Seq<u8>), CodecError> {
    match r {
        Ok((ps2, sk2)) => Ok((ps + ps2, sk + sk2)),
        Err(e) => Err(e),
    }
}

impl CompoundRtcpPacket {
    /// Whether the first packet is a Sender or Receiver Report, as a
    /// compound packet should begin.
    pub fn starts_with_report(&self) -> (r: bool)
        ensures
            r == (self.packets@.len() > 0 && is_report(self.packets@[0]@)),
    {
        if self.packets.len() == 0 {
            false
        } else {
            match &self.packets[0] {
                Packet::SR(_) => true,
                Packet::RR(_) => true,
                _ => false,
            }
        }
    }
}

/// Decodes a compound buffer. A packet of a type that is not interpreted is
/// skipped by its length field and its type code recorded.
#[verifier::rlimit(40)]
pub fn decode_compound(buf: &[u8]) -> (r: Result<CompoundRtcpPacket, CodecError>)
    ensures
        match r {
            Ok(c) => parse_compound(buf@) == Ok::<(Seq<PacketView>, Seq<u8>), CodecError>(
                (packets_view(c.packets@), c.skipped@),
            ),
            Err(e) => parse_compound(buf@) == Err::<(Seq<PacketView>, Seq<u8>), CodecError>(e),
        },
{
    let len = buf.len();
    if len < 4 {
        return Err(CodecError::BufferTooShort);
    }
    let mut packets: Vec<Packet> = Vec::new();
    let mut skipped: Vec<u8> = Vec::new();
    let mut pos: usize = 0;
    assert(buf@.subrange(0, len as int) =~= buf@);
    while pos < len
        invariant
            pos <= len,
            len == buf@.len(),
            parse_sequence(buf@) == prepend(
                packets_view(packets@),
                skipped@,
                parse_sequence(buf@.subrange(pos as int, len as int)),
            ),
        decreases len - pos,
    {
        let ghost t = buf@.subrange(pos as int, len as int);
        let rem = len - pos;
        if rem < 4 {
            return Err(CodecError::BufferTooShort);
        }
        let total = 4 * (parse_be_u16(buf, pos + 2) as usize + 1);
        assert(be_u16(t, 2) == be_u16(buf@, pos + 2));
        if total > rem {
            return Err(CodecError::LengthMismatch);
        }
        let pt = buf[pos + 1];
        let ghost old_packets = packets@;
        let ghost old_skipped = skipped@;
        assert(t.subrange(total as int, t.len() as int) =~= buf@.subrange(
            (pos + total) as int,
            len as int,
        ));
        if pt < PT_SR || pt > PT_APP {
            skipped.push(pt);
            proof {
                assert(packets_view(packets@) == packets_view(old_packets));
                match parse_sequence(buf@.subrange((pos + total) as int, len as int)) {
                    Ok((ps, sk)) => {
                        assert(old_skipped + (seq![pt] + sk) =~= skipped@ + sk);
                    },
                    Err(e) => {},
                }
            }
        } else {
            let slice = slice_subrange(buf, pos, pos + total);
            assert(slice@ =~= t.subrange(0, total as int));
            match decode_packet(slice) {
                Err(e) => {
                    return Err(e);
                },
                Ok(p) => {
                    packets.push(p);
                    proof {
                        assert(packets_view(packets@) =~= packets_view(old_packets).push(p@));
                        match parse_sequence(buf@.subrange((pos + total) as int, len as int)) {
                            Ok((ps, sk)) => {
                                assert(packets_view(old_packets) + (seq![p@] + ps)
                                    =~= packets_view(packets@) + ps);
                            },
                            Err(e) => {},
                        }
                    }
                },
            }
        }
        pos = pos + total;
    }
    assert(packets_view(packets@) + seq![] =~= packets_view(packets@));
    assert(skipped@ + seq![] =~= skipped@);
    Ok(CompoundRtcpPacket { packets, skipped })
}

/// Encodes the packets of `c` one after another; the skipped type codes are
/// not written. Fails with the error of the first packet that cannot be
/// encoded. The first packet must be a Sender or Receiver Report.
pub fn encode_compound(c: &CompoundRtcpPacket) -> (r: Result<Vec<u8>, CodecError>)
    requires
        c.packets@.len() > 0,
        is_report(c.packets@[0]@),
    ensures
        match r {
            Ok(b) => encode_sequence(packets_view(c.packets@)) == Ok::<Seq<u8>, CodecError>(b@),
            Err(e) => encode_sequence(packets_view(c.packets@)) == Err::<Seq<u8>, CodecError>(e),
        },
{
    let ghost pv = packets_view(c.packets@);
    let mut out: Vec<u8> = Vec::new();
    let mut i: usize = 0;
    assert(pv.skip(0) =~= pv);
    while i < c.packets.len()
        invariant
            i <= c.packets@.len(),
            pv == packets_view(c.packets@),
            encode_sequence(pv) == match encode_sequence(pv.skip(i as int)) {
                Ok(b) => Ok(out@ + b),
                Err(e) => Err(e),
            },
        decreases c.packets@.len() - i,
    {
        assert(pv.skip(i as int).drop_first() =~= pv.skip(i + 1));
        assert(pv.skip(i as int)[0] == c.packets@[i as int]@);
        match encode_packet(&c.packets[i]) {
            Err(e) => {
                return Err(e);
            },
            Ok(b) => {
                let ghost before = out@;
                write_bytes(&mut out, b.as_slice());
                i = i + 1;
                proof {
                    match encode_sequence(pv.skip(i as int)) {
                        Ok(rest) => {
                            assert(before + (b@ + rest) =~= out@ + rest);
                        },
                        Err(e) => {},
                    }
                }
            },
        }
    }
    assert(pv.skip(i as int) =~= seq![]);
    assert(out@ + seq![] =~= out@);
    Ok(out)
}

proof fn lemma_sequence_round_trip(ps: Seq<PacketView>)
    requires
        forall|k: int| 0 <= k < ps.len() ==> #[trigger] well_formed(ps[k]),
    ensures
        encode_sequence(ps) is Ok,
        parse_sequence(encode_sequence(ps)->Ok_0) == Ok::<(Seq<PacketView>, Seq<u8>), CodecError>(
            (ps, seq![]),
        ),
    decreases ps.len(),
{
    if ps.len() == 0 {
        assert(ps =~= seq![]);
    } else {
        let first = ps[0];
        let rest = ps.drop_first();
        assert(well_formed(first));
        assert forall|k: int| 0 <= k < rest.len() implies #[trigger] well_formed(rest[k]) by {
            assert(well_formed(ps[k + 1]));
        }
        lemma_sequence_round_trip(rest);
        lemma_packet_round_trip(first);
        let pb = packet_bytes(first);
        let rb = encode_sequence(rest)->Ok_0;
        let s = pb + rb;
        assert(encode_sequence(ps) == Ok::<Seq<u8>, CodecError>(s));
        assert(s[1] == pb[1]);
        assert(s[2] == pb[2]);
        assert(s[3] == pb[3]);
        assert(be_u16(s, 2) == be_u16(pb, 2));
        assert(s.subrange(0, pb.len() as int) =~= pb);
        assert(s.subrange(pb.len() as int, s.len() as int) =~= rb);
        assert(seq![first] + rest =~= ps);
    }
}

/// Decoding the encoding of a compound packet gives its packets back, for
/// every non-empty sequence of well-formed packets.
pub proof fn lemma_compound_round_trip(ps: Seq<PacketView>)
    requires
        ps.len() >= 1,
        forall|k: int| 0 <= k < ps.len() ==> #[trigger] well_formed(ps[k]),
    ensures
        encode_sequence(ps) is Ok,
        parse_compound(encode_sequence(ps)->Ok_0) == Ok::<(Seq<PacketView>, Seq<u8>), CodecError>(
            (ps, seq![]),
        ),
{
    lemma_sequence_round_trip(ps);
    assert(well_formed(ps[0]));
    lemma_packet_round_trip(ps[0]);
}

/// A buffer shorter than one header is rejected as too short.
pub proof fn lemma_short_buffer(s: Seq<u8>)
    requires
        s.len() < 4,
    ensures
        parse_compound(s) == Err::<(Seq<PacketView>, Seq<u8>), CodecError>(
            CodecError::BufferTooShort,
        ),
{
}

/// A leading packet of a recognised type whose version field is not 2 is
/// rejected, once its length fits in the buffer.
pub proof fn lemma_bad_version(s: Seq<u8>)
    requires
        s.len() >= 4,
        version_of(s[0]) != 2,
        known_type(s[1]),
        4 * (be_u16(s, 2) + 1) <= s.len(),
    ensures
        parse_compound(s) == Err::<(Seq<PacketView>, Seq<u8>), CodecError>(
            CodecError::InvalidVersion,
        ),
{
    let total = 4 * (be_u16(s, 2) + 1);
    let h = s.subrange(0, total);
    assert(h[0] == s[0] && h[1] == s[1]);
}

/// A leading header that declares more bytes than the buffer holds is a
/// length mismatch.
pub proof fn lemma_length_beyond_buffer(s: Seq<u8>)
    requires
        s.len() >= 4,
        4 * (be_u16(s, 2) + 1) > s.len(),
    ensures
        parse_compound(s) == Err::<(Seq<PacketView>, Seq<u8>), CodecError>(
            CodecError::LengthMismatch,
        ),
{
}

} // verus!
