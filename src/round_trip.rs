use vstd::prelude::*;

use crate::bytes::{
    be_u16, count_of, header_byte_spec, lemma_u16_bytes, lemma_u32_bytes, lemma_u64_bytes,
    pad4, u16_bytes, u32_bytes, u64_bytes, version_of, zeros,
};
use crate::error::CodecError;
use crate::packet::{
    block_at, block_bytes, blocks_at, blocks_bytes, blocks_exact, body_bytes, chunk_bytes,
    chunk_fits, chunks_bytes, count_fits, count_value, exact_on_wire, fields_fit, info_at,
    info_bytes, item_bytes, item_fits, items_bytes, packet_bytes, parse_chunk, parse_chunks,
    parse_items, parse_packet, parse_body, known_type, reason_bytes, ssrcs_at, ssrcs_bytes, texts_fit, type_code, sat24,
    u24_bytes, ChunkView, ItemView, PacketView, ReportBlock, SenderInfo, PT_APP, PT_BYE, PT_RR,
    PT_SDES, PT_SR,
};

verus! {

proof fn lemma_header_byte(c: u8)
    requires
        c < 32,
    ensures
        version_of(header_byte_spec(false, c)) == 2,
        count_of(header_byte_spec(false, c)) == c,
{
    assert(c < 32 ==> (0x80u8 | 0u8 | c) >> 6u8 == 2u8 && (0x80u8 | 0u8 | c) & 0x1fu8 == c)
        by (bit_vector);
}

/// Where `s` holds `a + b` at `off`, it holds `a` at `off` and `b` right after it.
proof fn lemma_split(s: Seq<u8>, off: int, a: Seq<u8>, b: Seq<u8>)
    requires
        0 <= off,
        off + a.len() + b.len() <= s.len(),
        s.subrange(off, off + a.len() + b.len()) == a + b,
    ensures
        s.subrange(off, off + a.len()) == a,
        s.subrange(off + a.len(), off + a.len() + b.len()) == b,
{
    let n = a.len() + b.len();
    assert forall|k: int| 0 <= k < a.len() implies s[off + k] == a[k] by {
        assert(s.subrange(off, off + n)[k] == (a + b)[k]);
    }
    assert forall|k: int| 0 <= k < b.len() implies s[off + a.len() + k] == b[k] by {
        assert(s.subrange(off, off + n)[a.len() + k] == (a + b)[a.len() + k]);
    }
    assert(s.subrange(off, off + a.len()) =~= a);
    assert(s.subrange(off + a.len(), off + a.len() + b.len()) =~= b);
}

proof fn lemma_block(s: Seq<u8>, off: int, b: ReportBlock)
    requires
        0 <= off,
        off + 24 <= s.len(),
        s.subrange(off, off + 24) == block_bytes(b),
        b.cumulative_lost <= 0xffffff,
    ensures
        block_at(s, off) == b,
{
    let x1 = u32_bytes(b.ssrc);
    let x2 = x1 + seq![b.fraction_lost];
    let x3 = x2 + u24_bytes(sat24(b.cumulative_lost));
    let x4 = x3 + u32_bytes(b.ext_highest_seq);
    let x5 = x4 + u32_bytes(b.jitter);
    let x6 = x5 + u32_bytes(b.lsr);
    lemma_split(s, off, x6, u32_bytes(b.dlsr));
    lemma_split(s, off, x5, u32_bytes(b.lsr));
    lemma_split(s, off, x4, u32_bytes(b.jitter));
    lemma_split(s, off, x3, u32_bytes(b.ext_highest_seq));
    lemma_split(s, off, x2, u24_bytes(sat24(b.cumulative_lost)));
    lemma_split(s, off, x1, seq![b.fraction_lost]);
    lemma_u32_bytes(s, off, b.ssrc);
    lemma_u32_bytes(s, off + 8, b.ext_highest_seq);
    lemma_u32_bytes(s, off + 12, b.jitter);
    lemma_u32_bytes(s, off + 16, b.lsr);
    lemma_u32_bytes(s, off + 20, b.dlsr);
    assert(s[off + 4] == s.subrange(off + 4, off + 5)[0]);
    assert(s[off + 5] == s.subrange(off + 5, off + 8)[0]);
    assert(s[off + 6] == s.subrange(off + 5, off + 8)[1]);
    assert(s[off + 7] == s.subrange(off + 5, off + 8)[2]);
    let v = b.cumulative_lost;
    assert(sat24(v) == v);
    assert(v <= 0xffffff ==> (((v >> 16u32) as u8) as u32) << 16u32 | (((v >> 8u32) as u8) as u32)
        << 8u32 | ((v as u8) as u32) == v) by (bit_vector);
}

proof fn lemma_blocks_bytes(bs: Seq<ReportBlock>, i: int)
    requires
        0 <= i < bs.len(),
    ensures
        blocks_bytes(bs).len() == 24 * bs.len(),
        blocks_bytes(bs).subrange(24 * i, 24 * i + 24) == block_bytes(bs[i]),
    decreases bs.len(),
{
    if bs.len() > 1 {
        lemma_blocks_bytes(bs.drop_first(), if i == 0 { 0 } else { i - 1 });
    } else {
        assert(blocks_bytes(bs.drop_first()) =~= seq![]);
    }
    let r = blocks_bytes(bs.drop_first());
    if i == 0 {
        assert(blocks_bytes(bs).subrange(0, 24) =~= block_bytes(bs[0]));
    } else {
        assert(blocks_bytes(bs).subrange(24 * i, 24 * i + 24) =~= r.subrange(
            24 * (i - 1),
            24 * (i - 1) + 24,
        ));
    }
}

proof fn lemma_blocks(s: Seq<u8>, off: int, bs: Seq<ReportBlock>)
    requires
        0 <= off,
        off + 24 * bs.len() <= s.len(),
        s.subrange(off, off + 24 * bs.len()) == blocks_bytes(bs),
        blocks_exact(bs),
    ensures
        blocks_at(s, off, bs.len()) == bs,
{
    assert forall|i: int| 0 <= i < bs.len() implies blocks_at(s, off, bs.len())[i] == bs[i] by {
        lemma_blocks_bytes(bs, i);
        assert(s.subrange(off + 24 * i, off + 24 * i + 24) =~= blocks_bytes(bs).subrange(
            24 * i,
            24 * i + 24,
        ));
        lemma_block(s, off + 24 * i, bs[i]);
    }
    assert(blocks_at(s, off, bs.len()) =~= bs);
}

proof fn lemma_info(s: Seq<u8>, off: int, i: SenderInfo)
    requires
        0 <= off,
        off + 20 <= s.len(),
        s.subrange(off, off + 20) == info_bytes(i),
    ensures
        info_at(s, off) == i,
{
    let x1 = u64_bytes(i.ntp_timestamp);
    let x2 = x1 + u32_bytes(i.rtp_timestamp);
    let x3 = x2 + u32_bytes(i.packet_count);
    lemma_split(s, off, x3, u32_bytes(i.octet_count));
    lemma_split(s, off, x2, u32_bytes(i.packet_count));
    lemma_split(s, off, x1, u32_bytes(i.rtp_timestamp));
    lemma_u64_bytes(s, off, i.ntp_timestamp);
    lemma_u32_bytes(s, off + 8, i.rtp_timestamp);
    lemma_u32_bytes(s, off + 12, i.packet_count);
    lemma_u32_bytes(s, off + 16, i.octet_count);
}

proof fn lemma_ssrcs_bytes(ss: Seq<u32>, i: int)
    requires
        0 <= i < ss.len(),
    ensures
        ssrcs_bytes(ss).len() == 4 * ss.len(),
        ssrcs_bytes(ss).subrange(4 * i, 4 * i + 4) == u32_bytes(ss[i]),
    decreases ss.len(),
{
    if ss.len() > 1 {
        lemma_ssrcs_bytes(ss.drop_first(), if i == 0 { 0 } else { i - 1 });
    } else {
        assert(ssrcs_bytes(ss.drop_first()) =~= seq![]);
    }
    let r = ssrcs_bytes(ss.drop_first());
    if i == 0 {
        assert(ssrcs_bytes(ss).subrange(0, 4) =~= u32_bytes(ss[0]));
    } else {
        assert(ssrcs_bytes(ss).subrange(4 * i, 4 * i + 4) =~= r.subrange(
            4 * (i - 1),
            4 * (i - 1) + 4,
        ));
    }
}

proof fn lemma_ssrcs_len(ss: Seq<u32>)
    ensures
        ssrcs_bytes(ss).len() == 4 * ss.len(),
{
    if ss.len() > 0 {
        lemma_ssrcs_bytes(ss, 0);
    }
}

proof fn lemma_blocks_len(bs: Seq<ReportBlock>)
    ensures
        blocks_bytes(bs).len() == 24 * bs.len(),
{
    if bs.len() > 0 {
        lemma_blocks_bytes(bs, 0);
    }
}

proof fn lemma_ssrcs(s: Seq<u8>, off: int, ss: Seq<u32>)
    requires
        0 <= off,
        off + 4 * ss.len() <= s.len(),
        s.subrange(off, off + 4 * ss.len()) == ssrcs_bytes(ss),
    ensures
        ssrcs_at(s, off, ss.len()) == ss,
{
    assert forall|i: int| 0 <= i < ss.len() implies ssrcs_at(s, off, ss.len())[i] == ss[i] by {
        lemma_ssrcs_bytes(ss, i);
        assert(s.subrange(off + 4 * i, off + 4 * i + 4) =~= ssrcs_bytes(ss).subrange(
            4 * i,
            4 * i + 4,
        ));
        lemma_u32_bytes(s, off + 4 * i, ss[i]);
    }
    assert(ssrcs_at(s, off, ss.len()) =~= ss);
}

proof fn lemma_items(s: Seq<u8>, pos: int, items: Seq<ItemView>)
    requires
        0 <= pos,
        forall|k: int| 0 <= k < items.len() ==> #[trigger] item_fits(items[k]),
        pos + items_bytes(items).len() < s.len(),
        s.subrange(pos, pos + items_bytes(items).len()) == items_bytes(items),
        s[pos + items_bytes(items).len()] == 0,
    ensures
        parse_items(s, pos) == Some((items, pos + items_bytes(items).len() + 1)),
    decreases items.len(),
{
    if items.len() == 0 {
        assert(items =~= seq![]);
    } else {
        let i0 = items[0];
        let rest = items.drop_first();
        assert(item_fits(i0));
        let ib = item_bytes(i0);
        let rb = items_bytes(rest);
        assert(items_bytes(items) == ib + rb);
        lemma_split(s, pos, ib, rb);
        lemma_split(s, pos, seq![i0.kind, i0.text.len() as u8], i0.text);
        let next = pos + ib.len();
        assert(s[pos] == s.subrange(pos, pos + 2)[0]);
        assert(s[pos + 1] == s.subrange(pos, pos + 2)[1]);
        assert forall|k: int| 0 <= k < rest.len() implies #[trigger] item_fits(rest[k]) by {
            assert(item_fits(items[k + 1]));
        }
        lemma_items(s, next, rest);
        assert(seq![ItemView { kind: s[pos], text: s.subrange(pos + 2, next) }] + rest =~= items);
    }
}

proof fn lemma_chunk(s: Seq<u8>, pos: int, c: ChunkView)
    requires
        0 <= pos,
        chunk_fits(c),
        pos + chunk_bytes(c).len() <= s.len(),
        s.subrange(pos, pos + chunk_bytes(c).len()) == chunk_bytes(c),
    ensures
        parse_chunk(s, pos) == Ok::<(ChunkView, int), CodecError>((c, pos + chunk_bytes(c).len())),
{
    let ib = items_bytes(c.items);
    let l: int = ib.len() as int;
    let z = zeros((1 + pad4(l + 5)) as nat);
    lemma_split(s, pos, u32_bytes(c.ssrc) + ib, z);
    lemma_split(s, pos, u32_bytes(c.ssrc), ib);
    lemma_u32_bytes(s, pos, c.ssrc);
    assert(s[pos + 4 + l] == s.subrange(pos + 4 + l, pos + 4 + l + z.len())[0]);
    lemma_items(s, pos + 4, c.items);
    assert forall|k: int| pos + 5 + l <= k < pos + 4 + l + z.len() implies s[k] == 0 by {
        assert(s[k] == s.subrange(pos + 4 + l, pos + 4 + l + z.len())[k - (pos + 4 + l)]);
    }
}

proof fn lemma_chunks(s: Seq<u8>, pos: int, cs: Seq<ChunkView>)
    requires
        0 <= pos,
        forall|k: int| 0 <= k < cs.len() ==> #[trigger] chunk_fits(cs[k]),
        pos + chunks_bytes(cs).len() <= s.len(),
        s.subrange(pos, pos + chunks_bytes(cs).len()) == chunks_bytes(cs),
    ensures
        parse_chunks(s, pos, cs.len()) == Ok::<(Seq<ChunkView>, int), CodecError>(
            (cs, pos + chunks_bytes(cs).len()),
        ),
    decreases cs.len(),
{
    if cs.len() == 0 {
        assert(cs =~= seq![]);
    } else {
        let c0 = cs[0];
        let rest = cs.drop_first();
        let cb = chunk_bytes(c0);
        let rb = chunks_bytes(rest);
        assert(chunks_bytes(cs) == cb + rb);
        assert(chunk_fits(c0));
        lemma_split(s, pos, cb, rb);
        lemma_chunk(s, pos, c0);
        assert forall|k: int| 0 <= k < rest.len() implies #[trigger] chunk_fits(rest[k]) by {
            assert(chunk_fits(cs[k + 1]));
        }
        lemma_chunks(s, pos + cb.len(), rest);
        assert(seq![c0] + rest =~= cs);
    }
}

proof fn lemma_sr_body(ssrc: u32, info: SenderInfo, reports: Seq<ReportBlock>)
    requires
        reports.len() <= 31,
        blocks_exact(reports),
    ensures
        ({
            let p = PacketView::Sr { ssrc, info, reports };
            parse_body(PT_SR, reports.len() as u8, body_bytes(p)) == Ok::<PacketView, CodecError>(p)
        }),
{
    let b = body_bytes(PacketView::Sr { ssrc, info, reports });
    assert(b.subrange(0, b.len() as int) =~= b);
    lemma_blocks_len(reports);
    lemma_split(b, 0, u32_bytes(ssrc) + info_bytes(info), blocks_bytes(reports));
    lemma_split(b, 0, u32_bytes(ssrc), info_bytes(info));
    lemma_u32_bytes(b, 0, ssrc);
    lemma_info(b, 4, info);
    lemma_blocks(b, 24, reports);
}

proof fn lemma_rr_body(ssrc: u32, reports: Seq<ReportBlock>)
    requires
        reports.len() <= 31,
        blocks_exact(reports),
    ensures
        ({
            let p = PacketView::Rr { ssrc, reports };
            parse_body(PT_RR, reports.len() as u8, body_bytes(p)) == Ok::<PacketView, CodecError>(p)
        }),
{
    let b = body_bytes(PacketView::Rr { ssrc, reports });
    assert(b.subrange(0, b.len() as int) =~= b);
    lemma_blocks_len(reports);
    lemma_split(b, 0, u32_bytes(ssrc), blocks_bytes(reports));
    lemma_u32_bytes(b, 0, ssrc);
    lemma_blocks(b, 4, reports);
}

proof fn lemma_sdes_body(chunks: Seq<ChunkView>)
    requires
        chunks.len() <= 31,
        texts_fit(PacketView::Sdes { chunks }),
    ensures
        ({
            let p = PacketView::Sdes { chunks };
            parse_body(PT_SDES, chunks.len() as u8, body_bytes(p)) == Ok::<PacketView, CodecError>(p)
        }),
{
    let b = body_bytes(PacketView::Sdes { chunks });
    assert(b.subrange(0, b.len() as int) =~= b);
    lemma_chunks(b, 0, chunks);
}

proof fn lemma_bye_body(ssrcs: Seq<u32>, reason: Option<Seq<u8>>)
    requires
        ssrcs.len() <= 31,
        texts_fit(PacketView::Bye { ssrcs, reason }),
    ensures
        ({
            let p = PacketView::Bye { ssrcs, reason };
            parse_body(PT_BYE, ssrcs.len() as u8, body_bytes(p)) == Ok::<PacketView, CodecError>(p)
        }),
{
    let b = body_bytes(PacketView::Bye { ssrcs, reason });
    assert(b.subrange(0, b.len() as int) =~= b);
    lemma_ssrcs_len(ssrcs);
    let m: int = 4 * ssrcs.len() as int;
    lemma_split(b, 0, ssrcs_bytes(ssrcs), reason_bytes(reason));
    lemma_ssrcs(b, 0, ssrcs);
    match reason {
        None => {},
        Some(t) => {
            let z = zeros(pad4(t.len() + 1int) as nat);
            lemma_split(b, m, seq![t.len() as u8] + t, z);
            lemma_split(b, m, seq![t.len() as u8], t);
            assert(b[m] == b.subrange(m, m + 1)[0]);
            let e = m + 1 + t.len();
            assert forall|k: int| e <= k < b.len() implies b[k] == 0 by {
                assert(b[k] == b.subrange(e, e + z.len())[k - e]);
            }
        },
    }
}

proof fn lemma_app_body(subtype: u8, ssrc: u32, name: Seq<u8>, data: Seq<u8>)
    requires
        name.len() == 4,
    ensures
        ({
            let p = PacketView::App { subtype, ssrc, name, data };
            parse_body(PT_APP, subtype, body_bytes(p)) == Ok::<PacketView, CodecError>(p)
        }),
{
    let b = body_bytes(PacketView::App { subtype, ssrc, name, data });
    assert(b.subrange(0, b.len() as int) =~= b);
    lemma_split(b, 0, u32_bytes(ssrc) + name, data);
    lemma_split(b, 0, u32_bytes(ssrc), name);
    lemma_u32_bytes(b, 0, ssrc);
}

proof fn lemma_body_round_trip(p: PacketView)
    requires
        count_fits(p),
        fields_fit(p),
        exact_on_wire(p),
    ensures
        parse_body(type_code(p), count_value(p) as u8, body_bytes(p)) == Ok::<
            PacketView,
            CodecError,
        >(p),
{
    match p {
        PacketView::Sr { ssrc, info, reports } => lemma_sr_body(ssrc, info, reports),
        PacketView::Rr { ssrc, reports } => lemma_rr_body(ssrc, reports),
        PacketView::Sdes { chunks } => lemma_sdes_body(chunks),
        PacketView::Bye { ssrcs, reason } => lemma_bye_body(ssrcs, reason),
        PacketView::App { subtype, ssrc, name, data } => lemma_app_body(subtype, ssrc, name, data),
    }
}

/// Decoding the encoding of a packet gives the packet back, for every packet
/// whose counts and fields fit their wire form and whose cumulative-lost
/// values fit in 24 bits.
pub proof fn lemma_packet_round_trip(p: PacketView)
    requires
        count_fits(p),
        fields_fit(p),
        exact_on_wire(p),
    ensures
        parse_packet(packet_bytes(p)) == Ok::<PacketView, CodecError>(p),
        packet_bytes(p).len() >= 4,
        known_type(packet_bytes(p)[1]),
        4 * (be_u16(packet_bytes(p), 2) + 1) == packet_bytes(p).len(),
{
    let s = packet_bytes(p);
    let b = body_bytes(p);
    let c = count_value(p) as u8;
    let h = seq![header_byte_spec(false, c), type_code(p)];
    let w = u16_bytes((b.len() / 4) as u16);
    lemma_header_byte(c);
    assert(s.subrange(0, s.len() as int) =~= s);
    lemma_split(s, 0, h + w, b);
    lemma_split(s, 0, h, w);
    lemma_u16_bytes(s, 2, (b.len() / 4) as u16);
    assert(s[0] == s.subrange(0, 2)[0]);
    assert(s[1] == s.subrange(0, 2)[1]);
    lemma_body_round_trip(p);
}

} // verus!
