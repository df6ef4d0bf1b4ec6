use vstd::prelude::*;

use crate::compound::{packets_view, CompoundRtcpPacket};
use crate::packet::{Packet, PacketView, ReportBlock, SenderInfo, RR, SR};
use crate::rtp::RtpHeader;
use crate::source::{fresh_source, SourceState};

verus! {

/// Counters that a session reports about itself.
#[derive(Debug, Clone, Copy, PartialEq, Eq, Structural)]
pub struct RtpSessionStatistics {
    /// RTP packets sent by this session.
    pub pckt_count: u64,
}

/// Local identity, own transmission counters, and one tracker per remote
/// source, kept in ascending SSRC order.
#[derive(Debug, Clone)]
pub struct RtpSession {
    pub ssrc: u32,
    pub sources: Vec<SourceState>,
    pub packet_count: u32,
    pub octet_count: u32,
    /// RTP data was sent since the last report was built.
    pub sent_since_report: bool,
}

pub open spec fn sorted(s: Seq<SourceState>) -> bool {
    forall|i: int, j: int| 0 <= i < j < s.len() ==> s[i].ssrc < s[j].ssrc
}

/// `s` with a fresh tracker for `ssrc` put in its place, unless one is there.
pub open spec fn ensure_source(s: Seq<SourceState>, ssrc: u32) -> Seq<SourceState>
    decreases s.len(),
{
    if s.len() == 0 {
        seq![fresh_source(ssrc)]
    } else if s[0].ssrc == ssrc {
        s
    } else if s[0].ssrc > ssrc {
        seq![fresh_source(ssrc)] + s
    } else {
        seq![s[0]] + ensure_source(s.drop_first(), ssrc)
    }
}

/// `s` without the tracker of `ssrc`.
pub open spec fn without_source(s: Seq<SourceState>, ssrc: u32) -> Seq<SourceState>
    decreases s.len(),
{
    if s.len() == 0 {
        s
    } else if s[0].ssrc == ssrc {
        s.drop_first()
    } else {
        seq![s[0]] + without_source(s.drop_first(), ssrc)
    }
}

/// `s` with `f` applied to the tracker of `ssrc`.
pub open spec fn update_source(
    s: Seq<SourceState>,
    ssrc: u32,
    f: spec_fn(SourceState) -> SourceState,
) -> Seq<SourceState> {
    Seq::new(s.len(), |i: int| if s[i].ssrc == ssrc { f(s[i]) } else { s[i] })
}

/// `s` with every source listed in `ssrcs` marked as departed.
pub open spec fn depart(s: Seq<SourceState>, ssrcs: Seq<u32>) -> Seq<SourceState> {
    Seq::new(
        s.len(),
        |i: int|
            if ssrcs.contains(s[i].ssrc) {
                SourceState { departed: true, ..s[i] }
            } else {
                s[i]
            },
    )
}

/// Trackers after one received RTCP packet that arrived at `arrival`.
pub open spec fn rtcp_step(s: Seq<SourceState>, p: PacketView, arrival: u32) -> Seq<SourceState> {
    match p {
        PacketView::Sr { ssrc, info, .. } => update_source(
            ensure_source(s, ssrc),
            ssrc,
            |st: SourceState| st.after_sr(info.ntp_timestamp, arrival),
        ),
        PacketView::Bye { ssrcs, .. } => depart(s, ssrcs),
        _ => s,
    }
}

pub open spec fn rtcp_all(s: Seq<SourceState>, ps: Seq<PacketView>, arrival: u32) -> Seq<
    SourceState,
>
    decreases ps.len(),
{
    if ps.len() == 0 {
        s
    } else {
        rtcp_all(rtcp_step(s, ps[0], arrival), ps.drop_first(), arrival)
    }
}

/// One report block per source that has not departed, in order.
pub open spec fn reports_of(s: Seq<SourceState>, now: u32) -> Seq<ReportBlock>
    decreases s.len(),
{
    if s.len() == 0 {
        seq![]
    } else {
        (if s[0].departed {
            seq![]
        } else {
            seq![s[0].report_of(now)]
        }) + reports_of(s.drop_first(), now)
    }
}

pub open spec fn after_reports(s: Seq<SourceState>) -> Seq<SourceState> {
    Seq::new(s.len(), |i: int| if s[i].departed { s[i] } else { s[i].after_report() })
}

/// Where `ssrc` is, or would go, in a sorted sequence.
proof fn lemma_ensure_source(s: Seq<SourceState>, ssrc: u32, i: int, found: bool)
    requires
        sorted(s),
        0 <= i <= s.len(),
        forall|k: int| 0 <= k < i ==> s[k].ssrc < ssrc,
        found ==> i < s.len() && s[i].ssrc == ssrc,
        !found ==> forall|k: int| i <= k < s.len() ==> s[k].ssrc > ssrc,
    ensures
        ensure_source(s, ssrc) == if found {
            s
        } else {
            s.insert(i, fresh_source(ssrc))
        },
    decreases s.len(),
{
    if s.len() == 0 {
        assert(seq![fresh_source(ssrc)] =~= s.insert(i, fresh_source(ssrc)));
    } else if i == 0 {
        if !found {
            assert(seq![fresh_source(ssrc)] + s =~= s.insert(0, fresh_source(ssrc)));
        }
    } else {
        let rest = s.drop_first();
        assert(s[0].ssrc < ssrc);
        lemma_ensure_source(rest, ssrc, i - 1, found);
        if found {
            assert(seq![s[0]] + rest =~= s);
        } else {
            assert(seq![s[0]] + rest.insert(i - 1, fresh_source(ssrc)) =~= s.insert(
                i,
                fresh_source(ssrc),
            ));
        }
    }
}

proof fn lemma_without_source(s: Seq<SourceState>, ssrc: u32, i: int, found: bool)
    requires
        sorted(s),
        0 <= i <= s.len(),
        forall|k: int| 0 <= k < i ==> s[k].ssrc < ssrc,
        found ==> i < s.len() && s[i].ssrc == ssrc,
        !found ==> forall|k: int| i <= k < s.len() ==> s[k].ssrc > ssrc,
    ensures
        without_source(s, ssrc) == if found {
            s.remove(i)
        } else {
            s
        },
    decreases s.len(),
{
    if s.len() == 0 {
    } else if i == 0 {
        if found {
            assert(s.drop_first() =~= s.remove(0));
        } else {
            let rest = s.drop_first();
            assert forall|k: int| 0 <= k < rest.len() implies rest[k].ssrc > ssrc by {
                assert(s[k + 1].ssrc > ssrc);
            }
            assert forall|a: int, b: int| 0 <= a < b < rest.len() implies rest[a].ssrc
                < rest[b].ssrc by {
                assert(s[a + 1].ssrc < s[b + 1].ssrc);
            }
            lemma_without_source(rest, ssrc, 0, false);
            assert(seq![s[0]] + rest =~= s);
        }
    } else {
        let rest = s.drop_first();
        assert(s[0].ssrc < ssrc);
        assert forall|a: int, b: int| 0 <= a < b < rest.len() implies rest[a].ssrc
            < rest[b].ssrc by {
            assert(s[a + 1].ssrc < s[b + 1].ssrc);
        }
        lemma_without_source(rest, ssrc, i - 1, found);
        if found {
            assert(seq![s[0]] + rest.remove(i - 1) =~= s.remove(i));
        } else {
            assert(seq![s[0]] + rest =~= s);
        }
    }
}

proof fn lemma_reports_above(s: Seq<SourceState>, now: u32, b: u32)
    requires
        forall|k: int| 0 <= k < s.len() ==> s[k].ssrc > b,
    ensures
        forall|k: int|
            0 <= k < reports_of(s, now).len() ==> (#[trigger] reports_of(s, now)[k]).ssrc > b,
    decreases s.len(),
{
    if s.len() > 0 {
        let rest = s.drop_first();
        assert forall|k: int| 0 <= k < rest.len() implies rest[k].ssrc > b by {
            assert(s[k + 1].ssrc > b);
        }
        lemma_reports_above(rest, now, b);
        let h = if s[0].departed {
            seq![]
        } else {
            seq![s[0].report_of(now)]
        };
        let r = reports_of(rest, now);
        assert(reports_of(s, now) == h + r);
        assert forall|k: int| 0 <= k < reports_of(s, now).len() implies (
        #[trigger] reports_of(s, now)[k]).ssrc > b by {
            if k >= h.len() {
                assert((h + r)[k] == r[k - h.len()]);
            }
        }
    }
}

/// Report blocks come out in strictly ascending SSRC order.
pub proof fn lemma_reports_ascending(s: Seq<SourceState>, now: u32)
    requires
        sorted(s),
    ensures
        forall|i: int, j: int|
            0 <= i < j < reports_of(s, now).len() ==> reports_of(s, now)[i].ssrc < reports_of(
                s,
                now,
            )[j].ssrc,
    decreases s.len(),
{
    if s.len() > 0 {
        let rest = s.drop_first();
        assert forall|k: int| 0 <= k < rest.len() implies rest[k].ssrc > s[0].ssrc by {
            assert(s[k + 1].ssrc > s[0].ssrc);
        }
        lemma_reports_ascending(rest, now);
        lemma_reports_above(rest, now, s[0].ssrc);
        let h = if s[0].departed {
            seq![]
        } else {
            seq![s[0].report_of(now)]
        };
        let r = reports_of(rest, now);
        assert(reports_of(s, now) == h + r);
        assert forall|i: int, j: int|
            0 <= i < j < reports_of(s, now).len() implies reports_of(s, now)[i].ssrc < reports_of(
            s,
            now,
        )[j].ssrc by {
            assert((h + r)[j] == r[j - h.len()]);
            if i >= h.len() {
                assert((h + r)[i] == r[i - h.len()]);
            }
        }
    }
}

impl RtpSession {
    pub open spec fn wf(&self) -> bool {
        &&& sorted(self.sources@)
        &&& forall|k: int| 0 <= k < self.sources@.len() ==> (#[trigger] self.sources@[k]).wf()
    }

    /// A session whose local SSRC is drawn at random.
    pub fn new() -> (r: RtpSession)
        ensures
            r.wf(),
            r.sources@.len() == 0,
            r.packet_count == 0,
            r.octet_count == 0,
            !r.sent_since_report,
    {
        RtpSession::with_ssrc(rand::random::<u32>())
    }

    /// A session with the given local SSRC and no remote sources.
    pub fn with_ssrc(ssrc: u32) -> (r: RtpSession)
        ensures
            r.wf(),
            r.ssrc == ssrc,
            r.sources@.len() == 0,
            r.packet_count == 0,
            r.octet_count == 0,
            !r.sent_since_report,
    {
        RtpSession {
            ssrc,
            sources: Vec::new(),
            packet_count: 0,
            octet_count: 0,
            sent_since_report: false,
        }
    }

    /// The session's own counters.
    pub fn run(&mut self) -> (r: RtpSessionStatistics)
        ensures
            r.pckt_count == old(self).packet_count,
            *final(self) == *old(self),
    {
        RtpSessionStatistics { pckt_count: self.packet_count as u64 }
    }

    /// Index of the tracker of `ssrc`, or where it would be inserted.
    fn locate(&self, ssrc: u32) -> (r: (bool, usize))
        requires
            self.wf(),
        ensures
            r.1 <= self.sources@.len(),
            forall|k: int| 0 <= k < r.1 ==> self.sources@[k].ssrc < ssrc,
            r.0 ==> r.1 < self.sources@.len() && self.sources@[r.1 as int].ssrc == ssrc,
            !r.0 ==> forall|k: int| r.1 <= k < self.sources@.len() ==> self.sources@[k].ssrc > ssrc,
    {
        let mut i: usize = 0;
        while i < self.sources.len()
            invariant
                self.wf(),
                i <= self.sources@.len(),
                forall|k: int| 0 <= k < i ==> self.sources@[k].ssrc < ssrc,
            decreases self.sources@.len() - i,
        {
            let s = self.sources[i].ssrc;
            if s == ssrc {
                return (true, i);
            }
            if s > ssrc {
                return (false, i);
            }
            i = i + 1;
        }
        (false, i)
    }

    /// Index of the tracker of `ssrc`, created if there was none.
    fn source_index(&mut self, ssrc: u32) -> (r: usize)
        requires
            old(self).wf(),
        ensures
            final(self).wf(),
            final(self).sources@ == ensure_source(old(self).sources@, ssrc),
            r < final(self).sources@.len(),
            final(self).sources@[r as int].ssrc == ssrc,
            final(self).ssrc == old(self).ssrc,
            final(self).packet_count == old(self).packet_count,
            final(self).octet_count == old(self).octet_count,
            final(self).sent_since_report == old(self).sent_since_report,
    {
        let (found, i) = self.locate(ssrc);
        proof {
            lemma_ensure_source(self.sources@, ssrc, i as int, found);
        }
        if !found {
            let st = SourceState::new(ssrc);
            self.sources.insert(i, st);
            assert forall|a: int, b: int| 0 <= a < b < self.sources@.len() implies self.sources@[a].ssrc
                < self.sources@[b].ssrc by {
                assert(old(self).sources@.insert(i as int, st) == self.sources@);
            }
            assert forall|k: int| 0 <= k < self.sources@.len() implies (
            #[trigger] self.sources@[k]).wf() by {
                if k < i {
                    assert(self.sources@[k] == old(self).sources@[k]);
                } else if k > i {
                    assert(self.sources@[k] == old(self).sources@[k - 1]);
                }
            }
        }
        i
    }

    /// Drops the tracker of `ssrc`, if there is one.
    pub fn remove_source(&mut self, ssrc: u32)
        requires
            old(self).wf(),
        ensures
            final(self).wf(),
            final(self).sources@ == without_source(old(self).sources@, ssrc),
            final(self).ssrc == old(self).ssrc,
            final(self).packet_count == old(self).packet_count,
            final(self).octet_count == old(self).octet_count,
            final(self).sent_since_report == old(self).sent_since_report,
    {
        let (found, i) = self.locate(ssrc);
        proof {
            lemma_without_source(self.sources@, ssrc, i as int, found);
        }
        if found {
            self.sources.remove(i);
            assert forall|a: int, b: int| 0 <= a < b < self.sources@.len() implies self.sources@[a].ssrc
                < self.sources@[b].ssrc by {
                let o = old(self).sources@;
                let a2 = if a < i { a } else { a + 1 };
                let b2 = if b < i { b } else { b + 1 };
                assert(self.sources@[a] == o[a2]);
                assert(self.sources@[b] == o[b2]);
            }
            assert forall|k: int| 0 <= k < self.sources@.len() implies (
            #[trigger] self.sources@[k]).wf() by {
                let o = old(self).sources@;
                if k < i {
                    assert(self.sources@[k] == o[k]);
                } else {
                    assert(self.sources@[k] == o[k + 1]);
                }
            }
        }
    }

    /// Accounts for a received RTP packet that arrived at local time `arrival`.
    pub fn ingest_rtp(&mut self, header: &RtpHeader, arrival: u32)
        requires
            old(self).wf(),
        ensures
            final(self).wf(),
            final(self).sources@ == update_source(
                ensure_source(old(self).sources@, header.ssrc),
                header.ssrc,
                |st: SourceState| st.after_rtp(header.sequence, header.timestamp, arrival),
            ),
            final(self).ssrc == old(self).ssrc,
            final(self).packet_count == old(self).packet_count,
            final(self).octet_count == old(self).octet_count,
            final(self).sent_since_report == old(self).sent_since_report,
    {
        let i = self.source_index(header.ssrc);
        let ghost mid = self.sources@;
        let mut st = self.sources[i];
        st.on_rtp(header.sequence, header.timestamp, arrival);
        self.sources.set(i, st);
        proof {
            assert forall|k: int| 0 <= k < mid.len() && k != i implies mid[k].ssrc != header.ssrc by {
                if k < i {
                    assert(mid[k].ssrc < mid[i as int].ssrc);
                } else {
                    assert(mid[i as int].ssrc < mid[k].ssrc);
                }
            }
            assert(self.sources@ =~= update_source(
                mid,
                header.ssrc,
                |st: SourceState| st.after_rtp(header.sequence, header.timestamp, arrival),
            ));
            assert forall|k: int| 0 <= k < self.sources@.len() implies (
            #[trigger] self.sources@[k]).wf() by {
                if k != i {
                    assert(self.sources@[k] == mid[k]);
                }
            }
        }
    }

    fn ingest_sr(&mut self, ssrc: u32, ntp_timestamp: u64, arrival: u32)
        requires
            old(self).wf(),
        ensures
            final(self).wf(),
            final(self).sources@ == update_source(
                ensure_source(old(self).sources@, ssrc),
                ssrc,
                |st: SourceState| st.after_sr(ntp_timestamp, arrival),
            ),
            final(self).ssrc == old(self).ssrc,
            final(self).packet_count == old(self).packet_count,
            final(self).octet_count == old(self).octet_count,
            final(self).sent_since_report == old(self).sent_since_report,
    {
        let i = self.source_index(ssrc);
        let ghost mid = self.sources@;
        let mut st = self.sources[i];
        st.on_sr(ntp_timestamp, arrival);
        self.sources.set(i, st);
        proof {
            assert forall|k: int| 0 <= k < mid.len() && k != i implies mid[k].ssrc != ssrc by {
                if k < i {
                    assert(mid[k].ssrc < mid[i as int].ssrc);
                } else {
                    assert(mid[i as int].ssrc < mid[k].ssrc);
                }
            }
            assert(self.sources@ =~= update_source(
                mid,
                ssrc,
                |st: SourceState| st.after_sr(ntp_timestamp, arrival),
            ));
            assert forall|k: int| 0 <= k < self.sources@.len() implies (
            #[trigger] self.sources@[k]).wf() by {
                if k != i {
                    assert(self.sources@[k] == mid[k]);
                }
            }
        }
    }

    fn ingest_bye(&mut self, ssrcs: &Vec<u32>)
        requires
            old(self).wf(),
        ensures
            final(self).wf(),
            final(self).sources@ == depart(old(self).sources@, ssrcs@),
            final(self).ssrc == old(self).ssrc,
            final(self).packet_count == old(self).packet_count,
            final(self).octet_count == old(self).octet_count,
            final(self).sent_since_report == old(self).sent_since_report,
    {
        let ghost start = self.sources@;
        let mut j: usize = 0;
        while j < self.sources.len()
            invariant
                j <= self.sources@.len(),
                self.sources@.len() == start.len(),
                forall|k: int| 0 <= k < j ==> self.sources@[k] == depart(start, ssrcs@)[k],
                forall|k: int| j <= k < start.len() ==> self.sources@[k] == start[k],
                self.ssrc == old(self).ssrc,
                self.packet_count == old(self).packet_count,
                self.octet_count == old(self).octet_count,
                self.sent_since_report == old(self).sent_since_report,
                start == old(self).sources@,
            decreases start.len() - j,
        {
            let target = self.sources[j].ssrc;
            let mut listed = false;
            let mut m: usize = 0;
            while m < ssrcs.len()
                invariant
                    m <= ssrcs@.len(),
                    listed == exists|q: int| 0 <= q < m && ssrcs@[q] == target,
                decreases ssrcs@.len() - m,
            {
                if ssrcs[m] == target {
                    listed = true;
                }
                m = m + 1;
            }
            assert(listed == ssrcs@.contains(target));
            if listed {
                let mut st = self.sources[j];
                st.departed = true;
                self.sources.set(j, st);
            }
            j = j + 1;
        }
        assert(self.sources@ =~= depart(start, ssrcs@));
    }

    /// Takes in a received compound RTCP packet that arrived at local time
    /// `arrival` (1/65536 s): each Sender Report's timing is recorded for its
    /// source, and each source named in a Goodbye is marked as departed.
    pub fn ingest_rtcp(&mut self, compound: &CompoundRtcpPacket, arrival: u32)
        requires
            old(self).wf(),
        ensures
            final(self).wf(),
            final(self).sources@ == rtcp_all(
                old(self).sources@,
                packets_view(compound.packets@),
                arrival,
            ),
            final(self).ssrc == old(self).ssrc,
            final(self).packet_count == old(self).packet_count,
            final(self).octet_count == old(self).octet_count,
            final(self).sent_since_report == old(self).sent_since_report,
    {
        let ghost pv = packets_view(compound.packets@);
        let mut i: usize = 0;
        assert(pv.skip(0) =~= pv);
        while i < compound.packets.len()
            invariant
                i <= compound.packets@.len(),
                pv == packets_view(compound.packets@),
                self.wf(),
                rtcp_all(old(self).sources@, pv, arrival) == rtcp_all(
                    self.sources@,
                    pv.skip(i as int),
                    arrival,
                ),
                self.ssrc == old(self).ssrc,
                self.packet_count == old(self).packet_count,
                self.octet_count == old(self).octet_count,
                self.sent_since_report == old(self).sent_since_report,
            decreases compound.packets@.len() - i,
        {
            let ghost before = self.sources@;
            assert(pv.skip(i as int).drop_first() =~= pv.skip(i + 1));
            assert(pv.skip(i as int)[0] == compound.packets@[i as int]@);
            match &compound.packets[i] {
                Packet::SR(sr) => {
                    self.ingest_sr(sr.ssrc, sr.sender_info.ntp_timestamp, arrival);
                },
                Packet::BYE(bye) => {
                    self.ingest_bye(&bye.ssrcs);
                },
                _ => {},
            }
            assert(self.sources@ == rtcp_step(before, pv[i as int], arrival));
            i = i + 1;
        }
        assert(pv.skip(i as int) =~= seq![]);
    }

    /// Accounts for one RTP packet of `octets` payload bytes sent by this
    /// session; both counters wrap modulo 2^32.
    pub fn record_sent(&mut self, octets: u32)
        requires
            old(self).wf(),
        ensures
            final(self).wf(),
            final(self).packet_count == (old(self).packet_count + 1) % 0x1_0000_0000,
            final(self).octet_count == (old(self).octet_count + octets) % 0x1_0000_0000,
            final(self).sent_since_report,
            final(self).sources@ == old(self).sources@,
            final(self).ssrc == old(self).ssrc,
    {
        self.packet_count = if self.packet_count == u32::MAX {
            0
        } else {
            self.packet_count + 1
        };
        self.octet_count = ((self.octet_count as u64 + octets as u64) % 0x1_0000_0000u64) as u32;
        self.sent_since_report = true;
    }

    /// Builds the report to send now: a Sender Report if RTP data was sent
    /// since the last report, else a Receiver Report, with one block per
    /// source that has not departed, in ascending SSRC order. `ntp_timestamp`
    /// and `rtp_timestamp` are the sender's clocks now; `now` is local time in
    /// 1/65536 s.
    pub fn build_report(&mut self, ntp_timestamp: u64, rtp_timestamp: u32, now: u32) -> (r: Packet)
        requires
            old(self).wf(),
        ensures
            final(self).wf(),
            r@ == if old(self).sent_since_report {
                PacketView::Sr {
                    ssrc: old(self).ssrc,
                    info: SenderInfo {
                        ntp_timestamp,
                        rtp_timestamp,
                        packet_count: old(self).packet_count,
                        octet_count: old(self).octet_count,
                    },
                    reports: reports_of(old(self).sources@, now),
                }
            } else {
                PacketView::Rr { ssrc: old(self).ssrc, reports: reports_of(old(self).sources@, now) }
            },
            forall|i: int, j: int|
                0 <= i < j < reports_of(old(self).sources@, now).len() ==> reports_of(
                    old(self).sources@,
                    now,
                )[i].ssrc < reports_of(old(self).sources@, now)[j].ssrc,
            final(self).sources@ == after_reports(old(self).sources@),
            !final(self).sent_since_report,
            final(self).ssrc == old(self).ssrc,
            final(self).packet_count == old(self).packet_count,
            final(self).octet_count == old(self).octet_count,
    {
        let ghost start = self.sources@;
        let mut reports: Vec<ReportBlock> = Vec::new();
        let mut j: usize = 0;
        assert(start.skip(0) =~= start);
        while j < self.sources.len()
            invariant
                j <= self.sources@.len(),
                self.sources@.len() == start.len(),
                start == old(self).sources@,
                old(self).wf(),
                reports_of(start, now) == reports@ + reports_of(start.skip(j as int), now),
                forall|k: int| 0 <= k < j ==> self.sources@[k] == after_reports(start)[k],
                forall|k: int| j <= k < start.len() ==> self.sources@[k] == start[k],
                self.ssrc == old(self).ssrc,
                self.packet_count == old(self).packet_count,
                self.octet_count == old(self).octet_count,
                self.sent_since_report == old(self).sent_since_report,
            decreases start.len() - j,
        {
            assert(start.skip(j as int).drop_first() =~= start.skip(j + 1));
            assert(start.skip(j as int)[0] == start[j as int]);
            assert(start[j as int].wf());
            let ghost before = reports@;
            if !self.sources[j].departed {
                let mut st = self.sources[j];
                let b = st.build_report_block(now);
                self.sources.set(j, st);
                reports.push(b);
                assert(before + (seq![b] + reports_of(start.skip(j + 1), now)) =~= reports@
                    + reports_of(start.skip(j + 1), now));
            } else {
                assert(before + (seq![] + reports_of(start.skip(j + 1), now)) =~= reports@
                    + reports_of(start.skip(j + 1), now));
            }
            j = j + 1;
        }
        assert(start.skip(j as int) =~= seq![]);
        assert(reports@ + seq![] =~= reports@);
        assert(self.sources@ =~= after_reports(start));
        assert forall|k: int| 0 <= k < self.sources@.len() implies (
        #[trigger] self.sources@[k]).wf() by {
            assert(start[k].wf());
        }
        proof {
            lemma_reports_ascending(start, now);
        }
        if self.sent_since_report {
            self.sent_since_report = false;
            Packet::SR(
                SR {
                    ssrc: self.ssrc,
                    sender_info: SenderInfo {
                        ntp_timestamp,
                        rtp_timestamp,
                        packet_count: self.packet_count,
                        octet_count: self.octet_count,
                    },
                    reports,
                },
            )
        } else {
            Packet::RR(RR { ssrc: self.ssrc, reports })
        }
    }
}

} // verus!
