use vstd::prelude::*;

use crate::bytes::{header_byte, pad4, write_u16_be, write_u32_be, write_u64_be, write_zeros};
use crate::decode::{chunks_view, items_view};
use crate::error::CodecError;
use crate::packet::{
    block_bytes, blocks_bytes, body_bytes, chunk_bytes, chunk_fits, chunks_bytes, count_fits,
    count_value, fields_fit, info_bytes, item_bytes, item_fits, items_bytes, packet_bytes,
    ssrcs_bytes, texts_fit, type_code, Packet, PacketView, ReportBlock, SdesChunk, SdesItem, SenderInfo, APP, BYE, RR, SDES, SR, MAX_BODY,
    MAX_COUNT, MAX_CUMULATIVE_LOST, PT_APP, PT_BYE, PT_RR, PT_SDES, PT_SR,
};

verus! {

/// Appends the bytes of `src`.
pub fn write_bytes(out: &mut Vec<u8>, src: &[u8])
    ensures
        final(out)@ == old(out)@ + src@,
{
    let mut i: usize = 0;
    while i < src.len()
        invariant
            i <= src@.len(),
            out@ == old(out)@ + src@.subrange(0, i as int),
        decreases src@.len() - i,
    {
        out.push(src[i]);
        i = i + 1;
        assert(out@ =~= old(out)@ + src@.subrange(0, i as int));
    }
    assert(src@.subrange(0, src@.len() as int) =~= src@);
}

fn write_report_block(out: &mut Vec<u8>, b: &ReportBlock)
    ensures
        final(out)@ == old(out)@ + block_bytes(*b),
{
    write_u32_be(out, b.ssrc);
    out.push(b.fraction_lost);
    let lost = if b.cumulative_lost > MAX_CUMULATIVE_LOST {
        MAX_CUMULATIVE_LOST
    } else {
        b.cumulative_lost
    };
    out.push((lost >> 16u32) as u8);
    out.push((lost >> 8u32) as u8);
    out.push(lost as u8);
    write_u32_be(out, b.ext_highest_seq);
    write_u32_be(out, b.jitter);
    write_u32_be(out, b.lsr);
    write_u32_be(out, b.dlsr);
    assert(final(out)@ =~= old(out)@ + block_bytes(*b));
}

fn write_report_blocks(out: &mut Vec<u8>, bs: &Vec<ReportBlock>)
    ensures
        final(out)@ == old(out)@ + blocks_bytes(bs@),
{
    let mut i: usize = 0;
    assert(bs@.skip(0) =~= bs@);
    while i < bs.len()
        invariant
            i <= bs@.len(),
            old(out)@ + blocks_bytes(bs@) == out@ + blocks_bytes(bs@.skip(i as int)),
        decreases bs@.len() - i,
    {
        let ghost before = out@;
        write_report_block(out, &bs[i]);
        assert(bs@.skip(i as int).drop_first() =~= bs@.skip(i + 1));
        i = i + 1;
        assert(before + blocks_bytes(bs@.skip(i - 1)) =~= out@ + blocks_bytes(bs@.skip(i as int)));
    }
    assert(blocks_bytes(bs@.skip(i as int)) =~= seq![]);
    assert(out@ + seq![] =~= out@);
}

fn write_sender_info(out: &mut Vec<u8>, i: &SenderInfo)
    ensures
        final(out)@ == old(out)@ + info_bytes(*i),
{
    write_u64_be(out, i.ntp_timestamp);
    write_u32_be(out, i.rtp_timestamp);
    write_u32_be(out, i.packet_count);
    write_u32_be(out, i.octet_count);
    assert(final(out)@ =~= old(out)@ + info_bytes(*i));
}

fn write_ssrcs(out: &mut Vec<u8>, ss: &Vec<u32>)
    ensures
        final(out)@ == old(out)@ + ssrcs_bytes(ss@),
{
    let mut i: usize = 0;
    assert(ss@.skip(0) =~= ss@);
    while i < ss.len()
        invariant
            i <= ss@.len(),
            old(out)@ + ssrcs_bytes(ss@) == out@ + ssrcs_bytes(ss@.skip(i as int)),
        decreases ss@.len() - i,
    {
        let ghost before = out@;
        write_u32_be(out, ss[i]);
        assert(ss@.skip(i as int).drop_first() =~= ss@.skip(i + 1));
        i = i + 1;
        assert(before + ssrcs_bytes(ss@.skip(i - 1)) =~= out@ + ssrcs_bytes(ss@.skip(i as int)));
    }
    assert(ssrcs_bytes(ss@.skip(i as int)) =~= seq![]);
    assert(out@ + seq![] =~= out@);
}

fn write_items(out: &mut Vec<u8>, items: &Vec<SdesItem>)
    ensures
        final(out)@ == old(out)@ + items_bytes(items_view(items@)),
{
    let ghost iv = items_view(items@);
    let mut i: usize = 0;
    assert(iv.skip(0) =~= iv);
    while i < items.len()
        invariant
            i <= items@.len(),
            iv == items_view(items@),
            old(out)@ + items_bytes(iv) == out@ + items_bytes(iv.skip(i as int)),
        decreases items@.len() - i,
    {
        let ghost before = out@;
        let it = &items[i];
        out.push(it.kind);
        out.push(it.text.len() as u8);
        write_bytes(out, it.text.as_slice());
        assert(iv[i as int] == it@);
        assert(out@ =~= before + item_bytes(it@));
        assert(iv.skip(i as int).drop_first() =~= iv.skip(i + 1));
        i = i + 1;
        assert(before + items_bytes(iv.skip(i - 1)) =~= out@ + items_bytes(iv.skip(i as int)));
    }
    assert(items_bytes(iv.skip(i as int)) =~= seq![]);
    assert(out@ + seq![] =~= out@);
}

fn write_chunk(out: &mut Vec<u8>, c: &SdesChunk)
    ensures
        final(out)@ == old(out)@ + chunk_bytes(c@),
{
    write_u32_be(out, c.ssrc);
    let start = out.len();
    write_items(out, &c.items);
    let used = out.len() - start;
    let pad = (4 - (used % 4 + 5) % 4) % 4;
    assert(pad == pad4(items_bytes(c@.items).len() + 5int));
    write_zeros(out, 1 + pad);
    assert(final(out)@ =~= old(out)@ + chunk_bytes(c@));
}

fn write_chunks(out: &mut Vec<u8>, cs: &Vec<SdesChunk>)
    ensures
        final(out)@ == old(out)@ + chunks_bytes(chunks_view(cs@)),
{
    let ghost cv = chunks_view(cs@);
    let mut i: usize = 0;
    assert(cv.skip(0) =~= cv);
    while i < cs.len()
        invariant
            i <= cs@.len(),
            cv == chunks_view(cs@),
            old(out)@ + chunks_bytes(cv) == out@ + chunks_bytes(cv.skip(i as int)),
        decreases cs@.len() - i,
    {
        let ghost before = out@;
        write_chunk(out, &cs[i]);
        assert(cv[i as int] == cs@[i as int]@);
        assert(cv.skip(i as int).drop_first() =~= cv.skip(i + 1));
        i = i + 1;
        assert(before + chunks_bytes(cv.skip(i - 1)) =~= out@ + chunks_bytes(cv.skip(i as int)));
    }
    assert(chunks_bytes(cv.skip(i as int)) =~= seq![]);
    assert(out@ + seq![] =~= out@);
}

/// Whether every item of every chunk has a non-END tag and at most 255 bytes of text.
fn chunks_fit(cs: &Vec<SdesChunk>) -> (r: bool)
    ensures
        r == forall|k: int| 0 <= k < cs@.len() ==> #[trigger] chunk_fits(chunks_view(cs@)[k]),
{
    let ghost cv = chunks_view(cs@);
    let mut i: usize = 0;
    while i < cs.len()
        invariant
            i <= cs@.len(),
            cv == chunks_view(cs@),
            forall|k: int| 0 <= k < i ==> #[trigger] chunk_fits(cv[k]),
        decreases cs@.len() - i,
    {
        let items = &cs[i].items;
        let ghost iv = cv[i as int].items;
        assert(cv[i as int] == cs@[i as int]@);
        assert(iv =~= items_view(items@));
        let mut j: usize = 0;
        while j < items.len()
            invariant
                j <= items@.len(),
                i < cs@.len(),
                iv == items_view(items@),
                cv == chunks_view(cs@),
                iv == cv[i as int].items,
                forall|k: int| 0 <= k < i ==> #[trigger] chunk_fits(cv[k]),
                forall|k: int| 0 <= k < j ==> #[trigger] item_fits(iv[k]),
            decreases items@.len() - j,
        {
            if items[j].kind == 0 || items[j].text.len() > 255 {
                assert(!item_fits(iv[j as int]));
                assert(!chunk_fits(cv[i as int]));
                return false;
            }
            j = j + 1;
        }
        assert(chunk_fits(cv[i as int]));
        i = i + 1;
    }
    true
}

fn sr_body(sr: &SR) -> (b: Vec<u8>)
    ensures
        b@ == body_bytes(sr@),
{
    let mut out: Vec<u8> = Vec::new();
    write_u32_be(&mut out, sr.ssrc);
    write_sender_info(&mut out, &sr.sender_info);
    write_report_blocks(&mut out, &sr.reports);
    assert(out@ =~= body_bytes(sr@));
    out
}

fn rr_body(rr: &RR) -> (b: Vec<u8>)
    ensures
        b@ == body_bytes(rr@),
{
    let mut out: Vec<u8> = Vec::new();
    write_u32_be(&mut out, rr.ssrc);
    write_report_blocks(&mut out, &rr.reports);
    assert(out@ =~= body_bytes(rr@));
    out
}

fn sdes_body(sdes: &SDES) -> (r: Result<Vec<u8>, CodecError>)
    ensures
        match r {
            Ok(b) => texts_fit(sdes@) && b@ == body_bytes(sdes@),
            Err(e) => !texts_fit(sdes@) && e == CodecError::LengthMismatch,
        },
{
    let ghost cv = chunks_view(sdes.chunks@);
    assert(sdes@ matches PacketView::Sdes { chunks } && chunks =~= cv);
    if !chunks_fit(&sdes.chunks) {
        return Err(CodecError::LengthMismatch);
    }
    let mut out: Vec<u8> = Vec::new();
    write_chunks(&mut out, &sdes.chunks);
    assert(out@ =~= body_bytes(sdes@));
    Ok(out)
}

fn bye_body(bye: &BYE) -> (r: Result<Vec<u8>, CodecError>)
    ensures
        match r {
            Ok(b) => texts_fit(bye@) && b@ == body_bytes(bye@),
            Err(e) => !texts_fit(bye@) && e == CodecError::LengthMismatch,
        },
{
    let mut out: Vec<u8> = Vec::new();
    write_ssrcs(&mut out, &bye.ssrcs);
    match &bye.reason {
        None => {},
        Some(t) => {
            if t.len() > 255 {
                return Err(CodecError::LengthMismatch);
            }
            out.push(t.len() as u8);
            write_bytes(&mut out, t.as_slice());
            let pad = (4 - (t.len() + 1) % 4) % 4;
            write_zeros(&mut out, pad);
        },
    }
    assert(out@ =~= body_bytes(bye@));
    Ok(out)
}

fn app_body(app: &APP) -> (b: Vec<u8>)
    ensures
        b@ == body_bytes(app@),
        texts_fit(app@),
{
    let mut out: Vec<u8> = Vec::new();
    write_u32_be(&mut out, app.ssrc);
    out.push(app.name[0]);
    out.push(app.name[1]);
    out.push(app.name[2]);
    out.push(app.name[3]);
    write_bytes(&mut out, app.data.as_slice());
    assert(app.name@.len() == 4);
    assert(out@ =~= body_bytes(app@));
    out
}

/// Puts the header in front of an encoded body, or reports why the packet
/// cannot be encoded: the count first, then the fields.
fn frame(count: usize, pt: u8, body: Result<Vec<u8>, CodecError>, Ghost(p): Ghost<PacketView>) -> (r:
    Result<Vec<u8>, CodecError>)
    requires
        count == count_value(p),
        pt == type_code(p),
        match body {
            Ok(b) => texts_fit(p) && b@ == body_bytes(p),
            Err(e) => !texts_fit(p) && e == CodecError::LengthMismatch,
        },
    ensures
        match r {
            Ok(b) => count_fits(p) && fields_fit(p) && b@ == packet_bytes(p),
            Err(e) => if !count_fits(p) {
                e == CodecError::InvalidCount
            } else {
                !fields_fit(p) && e == CodecError::LengthMismatch
            },
        },
{
    if count > MAX_COUNT {
        return Err(CodecError::InvalidCount);
    }
    let mut body = match body {
        Ok(b) => b,
        Err(e) => {
            return Err(e);
        },
    };
    let blen = body.len();
    if blen % 4 != 0 || blen > MAX_BODY {
        return Err(CodecError::LengthMismatch);
    }
    let mut out: Vec<u8> = Vec::new();
    out.push(header_byte(false, count as u8));
    out.push(pt);
    write_u16_be(&mut out, (blen / 4) as u16);
    out.append(&mut body);
    assert(out@ =~= packet_bytes(p));
    Ok(out)
}

impl SR {
    /// Encodes this Sender Report; see [`encode_packet`] for the errors.
    pub fn to_bytes(&self) -> (r: Result<Vec<u8>, CodecError>)
        ensures
            match r {
                Ok(b) => count_fits(self@) && fields_fit(self@) && b@ == packet_bytes(self@),
                Err(e) => if !count_fits(self@) {
                    e == CodecError::InvalidCount
                } else {
                    !fields_fit(self@) && e == CodecError::LengthMismatch
                },
            },
    {
        frame(self.reports.len(), PT_SR, Ok(sr_body(self)), Ghost(self@))
    }
}

impl RR {
    /// Encodes this Receiver Report; see [`encode_packet`] for the errors.
    pub fn to_bytes(&self) -> (r: Result<Vec<u8>, CodecError>)
        ensures
            match r {
                Ok(b) => count_fits(self@) && fields_fit(self@) && b@ == packet_bytes(self@),
                Err(e) => if !count_fits(self@) {
                    e == CodecError::InvalidCount
                } else {
                    !fields_fit(self@) && e == CodecError::LengthMismatch
                },
            },
    {
        frame(self.reports.len(), PT_RR, Ok(rr_body(self)), Ghost(self@))
    }
}

impl SDES {
    /// Encodes this Source Description; see [`encode_packet`] for the errors.
    pub fn to_bytes(&self) -> (r: Result<Vec<u8>, CodecError>)
        ensures
            match r {
                Ok(b) => count_fits(self@) && fields_fit(self@) && b@ == packet_bytes(self@),
                Err(e) => if !count_fits(self@) {
                    e == CodecError::InvalidCount
                } else {
                    !fields_fit(self@) && e == CodecError::LengthMismatch
                },
            },
    {
        frame(self.chunks.len(), PT_SDES, sdes_body(self), Ghost(self@))
    }
}

impl BYE {
    /// Encodes this Goodbye; see [`encode_packet`] for the errors.
    pub fn to_bytes(&self) -> (r: Result<Vec<u8>, CodecError>)
        ensures
            match r {
                Ok(b) => count_fits(self@) && fields_fit(self@) && b@ == packet_bytes(self@),
                Err(e) => if !count_fits(self@) {
                    e == CodecError::InvalidCount
                } else {
                    !fields_fit(self@) && e == CodecError::LengthMismatch
                },
            },
    {
        frame(self.ssrcs.len(), PT_BYE, bye_body(self), Ghost(self@))
    }
}

impl APP {
    /// Encodes this Application-defined packet; see [`encode_packet`] for the errors.
    pub fn to_bytes(&self) -> (r: Result<Vec<u8>, CodecError>)
        ensures
            match r {
                Ok(b) => count_fits(self@) && fields_fit(self@) && b@ == packet_bytes(self@),
                Err(e) => if !count_fits(self@) {
                    e == CodecError::InvalidCount
                } else {
                    !fields_fit(self@) && e == CodecError::LengthMismatch
                },
            },
    {
        let body = app_body(self);
        frame(self.subtype as usize, PT_APP, Ok(body), Ghost(self@))
    }
}

/// Encodes one packet, header included.
///
/// Fails with `InvalidCount` when the count (or APP subtype) exceeds 31, and
/// otherwise with `LengthMismatch` when a text field, or the body as a whole,
/// cannot be described by its length field.
pub fn encode_packet(p: &Packet) -> (r: Result<Vec<u8>, CodecError>)
    ensures
        match r {
            Ok(b) => count_fits(p@) && fields_fit(p@) && b@ == packet_bytes(p@),
            Err(e) => if !count_fits(p@) {
                e == CodecError::InvalidCount
            } else {
                !fields_fit(p@) && e == CodecError::LengthMismatch
            },
        },
{
    match p {
        Packet::SR(x) => x.to_bytes(),
        Packet::RR(x) => x.to_bytes(),
        Packet::SDES(x) => x.to_bytes(),
        Packet::BYE(x) => x.to_bytes(),
        Packet::APP(x) => x.to_bytes(),
    }
}

} // verus!
