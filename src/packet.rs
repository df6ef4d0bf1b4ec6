use vstd::prelude::*;

use crate::bytes::{be_u16, be_u32, be_u64, header_byte_spec, pad4, u16_bytes, u32_bytes, u64_bytes, zeros, count_of, version_of};
use crate::error::CodecError;
use crate::ident::{item_of_code, SDES_ITEM};

verus! {

/// Packet type code of a Sender Report.
pub const PT_SR: u8 = 200;
/// Packet type code of a Receiver Report.
pub const PT_RR: u8 = 201;
/// Packet type code of a Source Description.
pub const PT_SDES: u8 = 202;
/// Packet type code of a Goodbye.
pub const PT_BYE: u8 = 203;
/// Packet type code of an Application-defined packet.
pub const PT_APP: u8 = 204;

/// Largest value of the 5-bit count field.
pub const MAX_COUNT: usize = 31;
/// Largest body, in bytes, that the 16-bit length word can describe.
pub const MAX_BODY: usize = 262140;
/// Largest cumulative-lost value of a report block (24 bits).
pub const MAX_CUMULATIVE_LOST: u32 = 0xffffff;

/// The sender's own transmission counters carried by a Sender Report.
#[derive(Debug, Clone, Copy, PartialEq, Eq, Structural)]
pub struct SenderInfo {
    pub ntp_timestamp: u64,
    pub rtp_timestamp: u32,
    pub packet_count: u32,
    pub octet_count: u32,
}

/// Reception statistics about one remote source.
#[derive(Debug, Clone, Copy, PartialEq, Eq, Structural)]
pub struct ReportBlock {
    pub ssrc: u32,
    pub fraction_lost: u8,
    /// 24 bits on the wire; larger values are written as 0xffffff.
    pub cumulative_lost: u32,
    pub ext_highest_seq: u32,
    pub jitter: u32,
    pub lsr: u32,
    pub dlsr: u32,
}

/// Sender Report.
#[derive(Debug, Clone, PartialEq, Eq)]
pub struct SR {
    pub ssrc: u32,
    pub sender_info: SenderInfo,
    pub reports: Vec<ReportBlock>,
}

/// Receiver Report.
#[derive(Debug, Clone, PartialEq, Eq)]
pub struct RR {
    pub ssrc: u32,
    pub reports: Vec<ReportBlock>,
}

/// One typed text item of an SDES chunk; `kind` is never the END tag 0.
#[derive(Debug, Clone, PartialEq, Eq)]
pub struct SdesItem {
    pub kind: u8,
    pub text: Vec<u8>,
}

/// The items describing one source.
#[derive(Debug, Clone, PartialEq, Eq)]
pub struct SdesChunk {
    pub ssrc: u32,
    pub items: Vec<SdesItem>,
}

/// Source Description.
#[derive(Debug, Clone, PartialEq, Eq)]
pub struct SDES {
    pub chunks: Vec<SdesChunk>,
}

/// Goodbye: the sources leaving and an optional reason.
#[derive(Debug, Clone, PartialEq, Eq)]
pub struct BYE {
    pub ssrcs: Vec<u32>,
    pub reason: Option<Vec<u8>>,
}

/// Application-defined packet.
#[derive(Debug, Clone, PartialEq, Eq)]
pub struct APP {
    pub subtype: u8,
    pub ssrc: u32,
    pub name: [u8; 4],
    pub data: Vec<u8>,
}

/// One RTCP packet of any of the five kinds.
#[derive(Debug, Clone, PartialEq, Eq)]
pub enum Packet {
    SR(SR),
    RR(RR),
    SDES(SDES),
    BYE(BYE),
    APP(APP),
}

impl SdesItem {
    /// The item's type.
    pub fn item_type(&self) -> (r: SDES_ITEM)
        ensures
            r == item_of_code(self.kind),
    {
        match SDES_ITEM::from_u8(self.kind) {
            Ok(k) => k,
            Err(_) => SDES_ITEM::UNASSIGNED(self.kind),
        }
    }

    /// Checks that the text is ASCII; a failure concerns this item alone.
    pub fn check_text(&self) -> (r: Result<(), CodecError>)
        ensures
            r is Ok <==> forall|k: int| 0 <= k < self.text@.len() ==> self.text@[k] < 128,
            r is Err ==> r == Err::<(), CodecError>(CodecError::TextDecodeError),
    {
        let mut i: usize = 0;
        while i < self.text.len()
            invariant
                i <= self.text@.len(),
                forall|k: int| 0 <= k < i ==> self.text@[k] < 128,
            decreases self.text@.len() - i,
        {
            if self.text[i] >= 128 {
                return Err(CodecError::TextDecodeError);
            }
            i = i + 1;
        }
        Ok(())
    }
}

pub struct ItemView {
    pub kind: u8,
    pub text: Seq<u8>,
}

pub struct ChunkView {
    pub ssrc: u32,
    pub items: Seq<ItemView>,
}

/// Mathematical value of a packet.
pub enum PacketView {
    Sr { ssrc: u32, info: SenderInfo, reports: Seq<ReportBlock> },
    Rr { ssrc: u32, reports: Seq<ReportBlock> },
    Sdes { chunks: Seq<ChunkView> },
    Bye { ssrcs: Seq<u32>, reason: Option<Seq<u8>> },
    App { subtype: u8, ssrc: u32, name: Seq<u8>, data: Seq<u8> },
}

impl View for SdesItem {
    type V = ItemView;

    open spec fn view(&self) -> ItemView {
        ItemView { kind: self.kind, text: self.text@ }
    }
}

impl View for SdesChunk {
    type V = ChunkView;

    open spec fn view(&self) -> ChunkView {
        ChunkView { ssrc: self.ssrc, items: self.items@.map_values(|i: SdesItem| i@) }
    }
}

pub open spec fn reason_view(r: Option<Vec<u8>>) -> Option<Seq<u8>> {
    match r {
        Some(t) => Some(t@),
        None => None,
    }
}

impl View for SR {
    type V = PacketView;

    open spec fn view(&self) -> PacketView {
        PacketView::Sr { ssrc: self.ssrc, info: self.sender_info, reports: self.reports@ }
    }
}

impl View for RR {
    type V = PacketView;

    open spec fn view(&self) -> PacketView {
        PacketView::Rr { ssrc: self.ssrc, reports: self.reports@ }
    }
}

impl View for SDES {
    type V = PacketView;

    open spec fn view(&self) -> PacketView {
        PacketView::Sdes { chunks: self.chunks@.map_values(|c: SdesChunk| c@) }
    }
}

impl View for BYE {
    type V = PacketView;

    open spec fn view(&self) -> PacketView {
        PacketView::Bye { ssrcs: self.ssrcs@, reason: reason_view(self.reason) }
    }
}

impl View for APP {
    type V = PacketView;

    open spec fn view(&self) -> PacketView {
        PacketView::App { subtype: self.subtype, ssrc: self.ssrc, name: self.name@, data: self.data@ }
    }
}

impl View for Packet {
    type V = PacketView;

    open spec fn view(&self) -> PacketView {
        match self {
            Packet::SR(p) => p@,
            Packet::RR(p) => p@,
            Packet::SDES(p) => p@,
            Packet::BYE(p) => p@,
            Packet::APP(p) => p@,
        }
    }
}

pub open spec fn result_view(r: Result<Packet, CodecError>) -> Result<PacketView, CodecError> {
    match r {
        Ok(p) => Ok(p@),
        Err(e) => Err(e),
    }
}

// ---------------------------------------------------------------- encoding

pub open spec fn sat24(v: u32) -> u32 {
    if v > 0xffffff { 0xffffff } else { v }
}

pub open spec fn u24_bytes(v: u32) -> Seq<u8> {
    seq![(v >> 16u32) as u8, (v >> 8u32) as u8, v as u8]
}

pub open spec fn block_bytes(b: ReportBlock) -> Seq<u8> {
    u32_bytes(b.ssrc) + seq![b.fraction_lost] + u24_bytes(sat24(b.cumulative_lost)) + u32_bytes(
        b.ext_highest_seq,
    ) + u32_bytes(b.jitter) + u32_bytes(b.lsr) + u32_bytes(b.dlsr)
}

pub open spec fn blocks_bytes(bs: Seq<ReportBlock>) -> Seq<u8>
    decreases bs.len(),
{
    if bs.len() == 0 {
        seq![]
    } else {
        block_bytes(bs[0]) + blocks_bytes(bs.drop_first())
    }
}

pub open spec fn info_bytes(i: SenderInfo) -> Seq<u8> {
    u64_bytes(i.ntp_timestamp) + u32_bytes(i.rtp_timestamp) + u32_bytes(i.packet_count)
        + u32_bytes(i.octet_count)
}

pub open spec fn ssrcs_bytes(ss: Seq<u32>) -> Seq<u8>
    decreases ss.len(),
{
    if ss.len() == 0 {
        seq![]
    } else {
        u32_bytes(ss[0]) + ssrcs_bytes(ss.drop_first())
    }
}

pub open spec fn item_bytes(i: ItemView) -> Seq<u8> {
    seq![i.kind, i.text.len() as u8] + i.text
}

pub open spec fn items_bytes(items: Seq<ItemView>) -> Seq<u8>
    decreases items.len(),
{
    if items.len() == 0 {
        seq![]
    } else {
        item_bytes(items[0]) + items_bytes(items.drop_first())
    }
}

/// SSRC, items, the END tag and zero padding to a multiple of four bytes.
pub open spec fn chunk_bytes(c: ChunkView) -> Seq<u8> {
    u32_bytes(c.ssrc) + items_bytes(c.items) + zeros(
        (1 + pad4(items_bytes(c.items).len() + 5int)) as nat,
    )
}

pub open spec fn chunks_bytes(cs: Seq<ChunkView>) -> Seq<u8>
    decreases cs.len(),
{
    if cs.len() == 0 {
        seq![]
    } else {
        chunk_bytes(cs[0]) + chunks_bytes(cs.drop_first())
    }
}

pub open spec fn reason_bytes(r: Option<Seq<u8>>) -> Seq<u8> {
    match r {
        None => seq![],
        Some(t) => seq![t.len() as u8] + t + zeros(pad4(t.len() + 1int) as nat),
    }
}

/// Everything after the 4-byte header.
pub open spec fn body_bytes(p: PacketView) -> Seq<u8> {
    match p {
        PacketView::Sr { ssrc, info, reports } => u32_bytes(ssrc) + info_bytes(info) + blocks_bytes(
            reports,
        ),
        PacketView::Rr { ssrc, reports } => u32_bytes(ssrc) + blocks_bytes(reports),
        PacketView::Sdes { chunks } => chunks_bytes(chunks),
        PacketView::Bye { ssrcs, reason } => ssrcs_bytes(ssrcs) + reason_bytes(reason),
        PacketView::App { subtype, ssrc, name, data } => u32_bytes(ssrc) + name + data,
    }
}

/// Value of the header's 5-bit field: report, source or chunk count, or APP subtype.
pub open spec fn count_value(p: PacketView) -> nat {
    match p {
        PacketView::Sr { reports, .. } => reports.len(),
        PacketView::Rr { reports, .. } => reports.len(),
        PacketView::Sdes { chunks } => chunks.len(),
        PacketView::Bye { ssrcs, .. } => ssrcs.len(),
        PacketView::App { subtype, .. } => subtype as nat,
    }
}

pub open spec fn type_code(p: PacketView) -> u8 {
    match p {
        PacketView::Sr { .. } => PT_SR,
        PacketView::Rr { .. } => PT_RR,
        PacketView::Sdes { .. } => PT_SDES,
        PacketView::Bye { .. } => PT_BYE,
        PacketView::App { .. } => PT_APP,
    }
}

/// The wire form of an encodable packet.
pub open spec fn packet_bytes(p: PacketView) -> Seq<u8> {
    seq![header_byte_spec(false, count_value(p) as u8), type_code(p)] + u16_bytes(
        (body_bytes(p).len() / 4) as u16,
    ) + body_bytes(p)
}

pub open spec fn item_fits(i: ItemView) -> bool {
    i.kind != 0 && i.text.len() <= 255
}

pub open spec fn chunk_fits(c: ChunkView) -> bool {
    forall|k: int| 0 <= k < c.items.len() ==> #[trigger] item_fits(c.items[k])
}

/// Text fields that the one-byte length and tag fields can carry.
pub open spec fn texts_fit(p: PacketView) -> bool {
    match p {
        PacketView::Sdes { chunks } => forall|k: int|
            0 <= k < chunks.len() ==> #[trigger] chunk_fits(chunks[k]),
        PacketView::Bye { reason, .. } => match reason {
            Some(t) => t.len() <= 255,
            None => true,
        },
        PacketView::App { name, .. } => name.len() == 4,
        _ => true,
    }
}

/// The count fits in the 5-bit header field.
pub open spec fn count_fits(p: PacketView) -> bool {
    count_value(p) <= 31
}

/// Every field fits its wire form and the body can be described by the length word.
pub open spec fn fields_fit(p: PacketView) -> bool {
    texts_fit(p) && body_bytes(p).len() % 4 == 0 && body_bytes(p).len() <= 262140
}

pub open spec fn blocks_exact(bs: Seq<ReportBlock>) -> bool {
    forall|k: int| 0 <= k < bs.len() ==> (#[trigger] bs[k]).cumulative_lost <= 0xffffff
}

/// No field is changed on the way to the wire (no cumulative-lost value saturates).
pub open spec fn exact_on_wire(p: PacketView) -> bool {
    match p {
        PacketView::Sr { reports, .. } => blocks_exact(reports),
        PacketView::Rr { reports, .. } => blocks_exact(reports),
        _ => true,
    }
}

/// A packet that encodes, and that decodes to itself.
pub open spec fn well_formed(p: PacketView) -> bool {
    count_fits(p) && fields_fit(p) && exact_on_wire(p)
}

/// The error that encoding reports for `p`, if any.
pub open spec fn packet_error(p: PacketView) -> Option<CodecError> {
    if !count_fits(p) {
        Some(CodecError::InvalidCount)
    } else if !fields_fit(p) {
        Some(CodecError::LengthMismatch)
    } else {
        None
    }
}

// ---------------------------------------------------------------- decoding

pub open spec fn be_u24(s: Seq<u8>, off: int) -> u32 {
    ((s[off] as u32) << 16u32) | ((s[off + 1] as u32) << 8u32) | (s[off + 2] as u32)
}

pub open spec fn block_at(s: Seq<u8>, off: int) -> ReportBlock {
    ReportBlock {
        ssrc: be_u32(s, off),
        fraction_lost: s[off + 4],
        cumulative_lost: be_u24(s, off + 5),
        ext_highest_seq: be_u32(s, off + 8),
        jitter: be_u32(s, off + 12),
        lsr: be_u32(s, off + 16),
        dlsr: be_u32(s, off + 20),
    }
}

pub open spec fn blocks_at(s: Seq<u8>, off: int, n: nat) -> Seq<ReportBlock> {
    Seq::new(n, |i: int| block_at(s, off + 24 * i))
}

pub open spec fn info_at(s: Seq<u8>, off: int) -> SenderInfo {
    SenderInfo {
        ntp_timestamp: be_u64(s, off),
        rtp_timestamp: be_u32(s, off + 8),
        packet_count: be_u32(s, off + 12),
        octet_count: be_u32(s, off + 16),
    }
}

pub open spec fn ssrcs_at(s: Seq<u8>, off: int, n: nat) -> Seq<u32> {
    Seq::new(n, |i: int| be_u32(s, off + 4 * i))
}

/// Items from `pos` up to and including the END tag, and the position after it.
pub open spec fn parse_items(s: Seq<u8>, pos: int) -> Option<(Seq<ItemView>, int)>
    decreases s.len() - pos,
{
    if pos < 0 || pos >= s.len() {
        None
    } else if s[pos] == 0 {
        Some((seq![], pos + 1))
    } else if pos + 2 > s.len() || pos + 2 + s[pos + 1] > s.len() {
        None
    } else {
        let next = pos + 2 + s[pos + 1];
        match parse_items(s, next) {
            None => None,
            Some((rest, end)) => Some(
                (
                    seq![ItemView { kind: s[pos], text: s.subrange(pos + 2, next) }] + rest,
                    end,
                ),
            ),
        }
    }
}

/// The bytes of `s` from `a` up to `b` are all zero.
pub open spec fn zero_between(s: Seq<u8>, a: int, b: int) -> bool {
    forall|k: int| a <= k < b ==> s[k] == 0
}

/// One chunk at `pos`, and the position after its padding.
pub open spec fn parse_chunk(s: Seq<u8>, pos: int) -> Result<(ChunkView, int), CodecError> {
    if pos < 0 || pos + 4 > s.len() {
        Err(CodecError::BufferTooShort)
    } else {
        match parse_items(s, pos + 4) {
            None => Err(CodecError::BufferTooShort),
            Some((items, end)) => {
                let next = end + pad4(end - pos);
                if next > s.len() {
                    Err(CodecError::BufferTooShort)
                } else if !zero_between(s, end, next) {
                    Err(CodecError::TextDecodeError)
                } else {
                    Ok((ChunkView { ssrc: be_u32(s, pos), items }, next))
                }
            },
        }
    }
}

pub open spec fn parse_chunks(s: Seq<u8>, pos: int, n: nat) -> Result<(Seq<ChunkView>, int), CodecError>
    decreases n,
{
    if n == 0 {
        Ok((seq![], pos))
    } else {
        match parse_chunk(s, pos) {
            Err(e) => Err(e),
            Ok((c, next)) => match parse_chunks(s, next, (n - 1) as nat) {
                Err(e) => Err(e),
                Ok((cs, end)) => Ok((seq![c] + cs, end)),
            },
        }
    }
}

/// Decodes the body `b` of a packet of a recognised type.
pub open spec fn parse_body(pt: u8, count: u8, b: Seq<u8>) -> Result<PacketView, CodecError> {
    if pt == PT_SR {
        if b.len() != 24 + 24 * count {
            Err(CodecError::LengthMismatch)
        } else {
            Ok(
                PacketView::Sr {
                    ssrc: be_u32(b, 0),
                    info: info_at(b, 4),
                    reports: blocks_at(b, 24, count as nat),
                },
            )
        }
    } else if pt == PT_RR {
        if b.len() != 4 + 24 * count {
            Err(CodecError::LengthMismatch)
        } else {
            Ok(PacketView::Rr { ssrc: be_u32(b, 0), reports: blocks_at(b, 4, count as nat) })
        }
    } else if pt == PT_SDES {
        match parse_chunks(b, 0, count as nat) {
            Err(e) => Err(e),
            Ok((chunks, end)) => if end == b.len() {
                Ok(PacketView::Sdes { chunks })
            } else {
                Err(CodecError::LengthMismatch)
            },
        }
    } else if pt == PT_BYE {
        let m = 4 * count;
        if b.len() < m {
            Err(CodecError::LengthMismatch)
        } else if b.len() == m {
            Ok(PacketView::Bye { ssrcs: ssrcs_at(b, 0, count as nat), reason: None })
        } else if b.len() != m + 1 + b[m] + pad4(1 + b[m]) {
            Err(CodecError::LengthMismatch)
        } else if !zero_between(b, m + 1 + b[m], b.len() as int) {
            Err(CodecError::TextDecodeError)
        } else {
            Ok(
                PacketView::Bye {
                    ssrcs: ssrcs_at(b, 0, count as nat),
                    reason: Some(b.subrange(m + 1, m + 1 + b[m])),
                },
            )
        }
    } else {
        if b.len() < 8 {
            Err(CodecError::LengthMismatch)
        } else {
            Ok(
                PacketView::App {
                    subtype: count,
                    ssrc: be_u32(b, 0),
                    name: b.subrange(4, 8),
                    data: b.subrange(8, b.len() as int),
                },
            )
        }
    }
}

pub open spec fn known_type(pt: u8) -> bool {
    PT_SR <= pt <= PT_APP
}

/// Decodes exactly one packet occupying all of `s`.
pub open spec fn parse_packet(s: Seq<u8>) -> Result<PacketView, CodecError> {
    if s.len() < 4 {
        Err(CodecError::BufferTooShort)
    } else if !known_type(s[1]) {
        Err(CodecError::UnknownPacketType)
    } else if version_of(s[0]) != 2 {
        Err(CodecError::InvalidVersion)
    } else if 4 * (be_u16(s, 2) + 1) != s.len() {
        Err(CodecError::LengthMismatch)
    } else {
        parse_body(s[1], count_of(s[0]), s.subrange(4, s.len() as int))
    }
}

} // verus!
