use vstd::prelude::*;
use vstd::slice::{slice_subrange, slice_to_vec};

use crate::bytes::{header_count, header_version, parse_be_u16, parse_be_u32, parse_be_u64, pad4};
use crate::error::CodecError;
use crate::packet::{
    block_at, blocks_at, info_at, parse_body, parse_chunk, parse_chunks, parse_items, parse_packet,
    result_view, ssrcs_at, zero_between, ChunkView, ItemView, Packet, ReportBlock, SdesChunk,
    SdesItem, SenderInfo, APP, BYE, PT_APP, PT_BYE, PT_RR, PT_SDES, PT_SR, RR, SDES, SR,
};

verus! {

pub open spec fn items_view(v: Seq<SdesItem>) -> Seq<ItemView> {
    v.map_values(|i: SdesItem| i@)
}

pub open spec fn chunks_view(v: Seq<SdesChunk>) -> Seq<ChunkView> {
    v.map_values(|c: SdesChunk| c@)
}

/// Whether the bytes of `b` from `start` up to `end` are all zero.
fn zero_bytes(b: &[u8], start: usize, end: usize) -> (r: bool)
    requires
        start <= end <= b@.len(),
    ensures
        r == zero_between(b@, start as int, end as int),
{
    let mut i: usize = start;
    while i < end
        invariant
            start <= i <= end,
            end <= b@.len(),
            zero_between(b@, start as int, i as int),
        decreases end - i,
    {
        if b[i] != 0 {
            return false;
        }
        i = i + 1;
    }
    true
}

/// Reads the 24-byte report block at `offset`.
fn parse_report_block(packet: &[u8], offset: usize) -> (r: ReportBlock)
    requires
        offset + 24 <= packet@.len(),
    ensures
        r == block_at(packet@, offset as int),
{
    // a slice's length is a usize, so the offsets computed below fit in one
    let _ = packet.len();
    ReportBlock {
        ssrc: parse_be_u32(packet, offset),
        fraction_lost: packet[offset + 4],
        cumulative_lost: ((packet[offset + 5] as u32) << 16u32) | ((packet[offset + 6] as u32)
            << 8u32) | (packet[offset + 7] as u32),
        ext_highest_seq: parse_be_u32(packet, offset + 8),
        jitter: parse_be_u32(packet, offset + 12),
        lsr: parse_be_u32(packet, offset + 16),
        dlsr: parse_be_u32(packet, offset + 20),
    }
}

/// Reads `n` report blocks starting at `offset`.
fn parse_report_blocks(body: &[u8], offset: usize, n: usize) -> (r: Vec<ReportBlock>)
    requires
        offset + 24 * n <= body@.len(),
    ensures
        r@ == blocks_at(body@, offset as int, n as nat),
{
    let len = body.len();
    let mut reports: Vec<ReportBlock> = Vec::new();
    let mut i: usize = 0;
    while i < n
        invariant
            i <= n,
            len == body@.len(),
            offset + 24 * n <= body@.len(),
            reports@ == blocks_at(body@, offset as int, i as nat),
        decreases n - i,
    {
        assert(24 * i + 24 <= 24 * n) by (nonlinear_arith)
            requires
                i < n,
        ;
        let b = parse_report_block(body, offset + 24 * i);
        reports.push(b);
        i = i + 1;
        assert(reports@ =~= blocks_at(body@, offset as int, i as nat));
    }
    reports
}

fn parse_sender_info(body: &[u8], offset: usize) -> (r: SenderInfo)
    requires
        offset + 20 <= body@.len(),
    ensures
        r == info_at(body@, offset as int),
{
    // a slice's length is a usize, so the offsets computed below fit in one
    let _ = body.len();
    SenderInfo {
        ntp_timestamp: parse_be_u64(body, offset),
        rtp_timestamp: parse_be_u32(body, offset + 8),
        packet_count: parse_be_u32(body, offset + 12),
        octet_count: parse_be_u32(body, offset + 16),
    }
}

fn parse_sr(rc: u8, body: &[u8]) -> (r: Result<Packet, CodecError>)
    ensures
        result_view(r) == parse_body(PT_SR, rc, body@),
{
    let n = rc as usize;
    if body.len() != 24 + 24 * n {
        return Err(CodecError::LengthMismatch);
    }
    let ssrc = parse_be_u32(body, 0);
    let sender_info = parse_sender_info(body, 4);
    let reports = parse_report_blocks(body, 24, n);
    Ok(Packet::SR(SR { ssrc, sender_info, reports }))
}

fn parse_rr(rc: u8, body: &[u8]) -> (r: Result<Packet, CodecError>)
    ensures
        result_view(r) == parse_body(PT_RR, rc, body@),
{
    let n = rc as usize;
    if body.len() != 4 + 24 * n {
        return Err(CodecError::LengthMismatch);
    }
    let ssrc = parse_be_u32(body, 0);
    let reports = parse_report_blocks(body, 4, n);
    Ok(Packet::RR(RR { ssrc, reports }))
}

/// Items from `pos` through the END tag, and the position after the tag.
fn parse_sdes_items(b: &[u8], pos: usize) -> (r: Option<(Vec<SdesItem>, usize)>)
    ensures
        match r {
            None => parse_items(b@, pos as int) is None,
            Some((items, end)) => parse_items(b@, pos as int) == Some(
                (items_view(items@), end as int),
            ),
        },
{
    let mut items: Vec<SdesItem> = Vec::new();
    let mut p: usize = pos;
    loop
        invariant
            pos <= p,
            parse_items(b@, pos as int) == match parse_items(b@, p as int) {
                None => None,
                Some((rest, e)) => Some((items_view(items@) + rest, e)),
            },
        decreases b@.len() - p,
    {
        if p >= b.len() {
            return None;
        }
        if b[p] == 0 {
            assert(items_view(items@) + seq![] =~= items_view(items@));
            return Some((items, p + 1));
        }
        if b.len() - p < 2 {
            return None;
        }
        let n = b[p + 1] as usize;
        if b.len() - p - 2 < n {
            return None;
        }
        let text = slice_to_vec(slice_subrange(b, p + 2, p + 2 + n));
        let item = SdesItem { kind: b[p], text };
        let ghost old_items = items@;
        let ghost old_p = p;
        items.push(item);
        p = p + 2 + n;
        proof {
            assert(items_view(items@) =~= items_view(old_items).push(item@));
            let it = ItemView { kind: b@[old_p as int], text: b@.subrange(old_p + 2, p as int) };
            assert(item@ == it);
            match parse_items(b@, p as int) {
                None => {},
                Some((rest, e)) => {
                    assert(items_view(old_items) + (seq![it] + rest) =~= items_view(items@) + rest);
                },
            }
        }
    }
}

proof fn lemma_parse_items_advances(s: Seq<u8>, pos: int)
    ensures
        match parse_items(s, pos) {
            None => true,
            Some((items, end)) => pos < end <= s.len(),
        },
    decreases s.len() - pos,
{
    if 0 <= pos < s.len() && s[pos] != 0 && pos + 2 <= s.len() && pos + 2 + s[pos + 1] <= s.len() {
        lemma_parse_items_advances(s, pos + 2 + s[pos + 1]);
    }
}

/// One chunk at `pos` and the position after its padding.
fn parse_sdes_chunk(b: &[u8], pos: usize) -> (r: Result<(SdesChunk, usize), CodecError>)
    ensures
        match r {
            Err(e) => parse_chunk(b@, pos as int) == Err::<(ChunkView, int), CodecError>(e),
            Ok((c, next)) => parse_chunk(b@, pos as int) == Ok::<(ChunkView, int), CodecError>(
                (c@, next as int),
            ),
        },
{
    if pos > b.len() || b.len() - pos < 4 {
        return Err(CodecError::BufferTooShort);
    }
    let ssrc = parse_be_u32(b, pos);
    match parse_sdes_items(b, pos + 4) {
        None => Err(CodecError::BufferTooShort),
        Some((items, end)) => {
            proof {
                lemma_parse_items_advances(b@, pos + 4);
            }
            let used = end - pos;
            let pad = (4 - used % 4) % 4;
            assert(pad == pad4(end - pos));
            if b.len() - end < pad {
                Err(CodecError::BufferTooShort)
            } else if !zero_bytes(b, end, end + pad) {
                Err(CodecError::TextDecodeError)
            } else {
                Ok((SdesChunk { ssrc, items }, end + pad))
            }
        },
    }
}

fn parse_sdes(sc: u8, body: &[u8]) -> (r: Result<Packet, CodecError>)
    ensures
        result_view(r) == parse_body(PT_SDES, sc, body@),
{
    let n = sc as usize;
    let mut chunks: Vec<SdesChunk> = Vec::new();
    let mut pos: usize = 0;
    let mut i: usize = 0;
    while i < n
        invariant
            i <= n,
            n == sc,
            parse_chunks(body@, 0, n as nat) == match parse_chunks(body@, pos as int, (n - i) as nat) {
                Err(e) => Err(e),
                Ok((rest, e)) => Ok((chunks_view(chunks@) + rest, e)),
            },
        decreases n - i,
    {
        match parse_sdes_chunk(body, pos) {
            Err(e) => {
                return Err(e);
            },
            Ok((c, next)) => {
                let ghost old_chunks = chunks@;
                let ghost old_pos = pos;
                chunks.push(c);
                pos = next;
                i = i + 1;
                proof {
                    assert(chunks_view(chunks@) =~= chunks_view(old_chunks).push(c@));
                    match parse_chunks(body@, pos as int, (n - i) as nat) {
                        Err(e) => {},
                        Ok((rest, e)) => {
                            assert(chunks_view(old_chunks) + (seq![c@] + rest) =~= chunks_view(
                                chunks@,
                            ) + rest);
                        },
                    }
                }
            },
        }
    }
    assert(chunks_view(chunks@) + seq![] =~= chunks_view(chunks@));
    if pos != body.len() {
        return Err(CodecError::LengthMismatch);
    }
    Ok(Packet::SDES(SDES { chunks }))
}

fn parse_bye(sc: u8, body: &[u8]) -> (r: Result<Packet, CodecError>)
    ensures
        result_view(r) == parse_body(PT_BYE, sc, body@),
{
    let n = sc as usize;
    let m = 4 * n;
    if body.len() < m {
        return Err(CodecError::LengthMismatch);
    }
    let mut ssrcs: Vec<u32> = Vec::new();
    let mut i: usize = 0;
    while i < n
        invariant
            i <= n,
            m == 4 * n,
            m <= body@.len(),
            ssrcs@ == ssrcs_at(body@, 0, i as nat),
        decreases n - i,
    {
        ssrcs.push(parse_be_u32(body, 4 * i));
        i = i + 1;
        assert(ssrcs@ =~= ssrcs_at(body@, 0, i as nat));
    }
    if body.len() == m {
        return Ok(Packet::BYE(BYE { ssrcs, reason: None }));
    }
    let len = body[m] as usize;
    let pad = (4 - (1 + len) % 4) % 4;
    if body.len() - m != 1 + len + pad {
        return Err(CodecError::LengthMismatch);
    }
    if !zero_bytes(body, m + 1 + len, body.len()) {
        return Err(CodecError::TextDecodeError);
    }
    let text = slice_to_vec(slice_subrange(body, m + 1, m + 1 + len));
    Ok(Packet::BYE(BYE { ssrcs, reason: Some(text) }))
}

fn parse_app(subtype: u8, body: &[u8]) -> (r: Result<Packet, CodecError>)
    ensures
        result_view(r) == parse_body(PT_APP, subtype, body@),
{
    if body.len() < 8 {
        return Err(CodecError::LengthMismatch);
    }
    let ssrc = parse_be_u32(body, 0);
    let name: [u8; 4] = [body[4], body[5], body[6], body[7]];
    let data = slice_to_vec(slice_subrange(body, 8, body.len()));
    let r = Packet::APP(APP { subtype, ssrc, name, data });
    assert(name@ =~= body@.subrange(4, 8));
    Ok(r)
}

/// Decodes one packet that occupies the whole of `packet`.
pub fn decode_packet(packet: &[u8]) -> (r: Result<Packet, CodecError>)
    ensures
        result_view(r) == parse_packet(packet@),
{
    if packet.len() < 4 {
        return Err(CodecError::BufferTooShort);
    }
    let pt = packet[1];
    if pt < PT_SR || pt > PT_APP {
        return Err(CodecError::UnknownPacketType);
    }
    if header_version(packet[0]) != 2 {
        return Err(CodecError::InvalidVersion);
    }
    let len = parse_be_u16(packet, 2) as usize;
    if 4 * (len + 1) != packet.len() {
        return Err(CodecError::LengthMismatch);
    }
    let count = header_count(packet[0]);
    let body = slice_subrange(packet, 4, packet.len());
    if pt == PT_SR {
        parse_sr(count, body)
    } else if pt == PT_RR {
        parse_rr(count, body)
    } else if pt == PT_SDES {
        parse_sdes(count, body)
    } else if pt == PT_BYE {
        parse_bye(count, body)
    } else {
        parse_app(count, body)
    }
}

} // verus!
