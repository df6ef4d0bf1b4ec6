use rtcp::compound::CompoundRtcpPacket;
use rtcp::packet::{Packet, SenderInfo, BYE, SR};
use rtcp::rtp::RtpHeader;
use rtcp::session::RtpSession;
use rtcp::source::SourceState;

fn header(ssrc: u32, sequence: u16, timestamp: u32) -> RtpHeader {
    RtpHeader { marker: false, payload_type: 0, sequence, timestamp, ssrc, csrcs: vec![] }
}

#[test]
fn sequence_wraps_into_a_new_cycle() {
    let mut s = SourceState::new(1);
    for seq in [65534u16, 65535, 0, 1] {
        s.on_rtp(seq, 0, 0);
    }
    assert_eq!(s.cycles, 1);
    let b = s.build_report_block(0);
    assert_eq!(b.ext_highest_seq, 65537);
    assert_eq!(b.cumulative_lost, 0);
}

#[test]
fn late_and_duplicate_packets_do_not_advance() {
    let mut s = SourceState::new(1);
    for seq in [10u16, 12, 11, 12] {
        s.on_rtp(seq, 0, 0);
    }
    assert_eq!(s.max_seq, 12);
    assert_eq!(s.cycles, 0);
    assert_eq!(s.received, 4);
}

#[test]
fn jitter_moves_a_sixteenth_of_the_way() {
    let mut s = SourceState::new(1);
    // transit 100, then 116: D = 16
    s.on_rtp(1, 0, 100);
    assert_eq!(s.jitter, 0);
    s.on_rtp(2, 10, 126);
    assert_eq!(s.jitter, 1);
}

#[test]
fn jitter_decreases_toward_smaller_deltas() {
    let mut s = SourceState::new(1);
    s.jitter = 32;
    s.on_rtp(1, 0, 0);
    s.on_rtp(2, 0, 0);
    assert_eq!(s.jitter, 30);
}

#[test]
fn fraction_lost_rounds_to_nearest() {
    let mut s = SourceState::new(1);
    for seq in 0..100u16 {
        if seq % 20 != 7 {
            s.on_rtp(seq, 0, 0);
        }
    }
    let b = s.build_report_block(0);
    assert_eq!(b.fraction_lost, 13);
    assert_eq!(b.cumulative_lost, 5);
    // a new interval with no loss
    s.on_rtp(100, 0, 0);
    let b2 = s.build_report_block(0);
    assert_eq!(b2.fraction_lost, 0);
    assert_eq!(b2.cumulative_lost, 5);
}

#[test]
fn fresh_tracker_reports_nothing_lost() {
    let mut s = SourceState::new(3);
    let b = s.build_report_block(0);
    assert_eq!(b.ssrc, 3);
    assert_eq!(b.fraction_lost, 0);
    assert_eq!(b.cumulative_lost, 0);
    assert_eq!(b.dlsr, 0);
}

#[test]
fn sender_report_timing_gives_lsr_and_dlsr() {
    let mut s = SourceState::new(1);
    s.on_sr(0x0102_0304_0506_0708, 1000);
    let b = s.build_report_block(1500);
    assert_eq!(b.lsr, 0x0304_0506);
    assert_eq!(b.dlsr, 500);
}

#[test]
fn report_blocks_ascend_by_ssrc() {
    let mut session = RtpSession::with_ssrc(1);
    session.ingest_rtp(&header(900, 1, 0), 0);
    session.ingest_rtp(&header(300, 1, 0), 0);
    session.ingest_rtp(&header(900, 2, 0), 0);
    match session.build_report(0, 0, 0) {
        Packet::RR(rr) => {
            assert_eq!(rr.ssrc, 1);
            let ssrcs: Vec<u32> = rr.reports.iter().map(|b| b.ssrc).collect();
            assert_eq!(ssrcs, vec![300, 900]);
        }
        _ => panic!("expected a receiver report"),
    }
}

#[test]
fn sending_makes_a_sender_report() {
    let mut session = RtpSession::with_ssrc(5);
    session.record_sent(100);
    session.record_sent(60);
    assert_eq!(session.run().pckt_count, 2);
    match session.build_report(7, 8, 0) {
        Packet::SR(sr) => {
            assert_eq!(sr.ssrc, 5);
            assert_eq!(
                sr.sender_info,
                SenderInfo { ntp_timestamp: 7, rtp_timestamp: 8, packet_count: 2, octet_count: 160 }
            );
        }
        _ => panic!("expected a sender report"),
    }
    assert!(matches!(session.build_report(7, 8, 0), Packet::RR(_)));
}

#[test]
fn goodbye_marks_source_departed() {
    let mut session = RtpSession::new();
    session.ingest_rtp(&header(10, 1, 0), 0);
    session.ingest_rtp(&header(20, 1, 0), 0);
    let c = CompoundRtcpPacket {
        packets: vec![
            Packet::SR(SR {
                ssrc: 20,
                sender_info: SenderInfo {
                    ntp_timestamp: 0x0000_1111_2222_0000,
                    rtp_timestamp: 0,
                    packet_count: 0,
                    octet_count: 0,
                },
                reports: vec![],
            }),
            Packet::BYE(BYE { ssrcs: vec![10], reason: None }),
        ],
        skipped: vec![],
    };
    session.ingest_rtcp(&c, 100);
    assert_eq!(session.sources.len(), 2);
    assert!(session.sources[0].departed);
    match session.build_report(0, 0, 165) {
        Packet::RR(rr) => {
            assert_eq!(rr.reports.len(), 1);
            assert_eq!(rr.reports[0].ssrc, 20);
            assert_eq!(rr.reports[0].lsr, 0x1111_2222);
            assert_eq!(rr.reports[0].dlsr, 65);
        }
        _ => panic!("expected a receiver report"),
    }
}

#[test]
fn sender_report_creates_tracker() {
    let mut session = RtpSession::with_ssrc(1);
    let c = CompoundRtcpPacket {
        packets: vec![Packet::SR(SR {
            ssrc: 44,
            sender_info: SenderInfo { ntp_timestamp: 0, rtp_timestamp: 0, packet_count: 0, octet_count: 0 },
            reports: vec![],
        })],
        skipped: vec![],
    };
    session.ingest_rtcp(&c, 0);
    assert_eq!(session.sources.len(), 1);
    assert_eq!(session.sources[0].ssrc, 44);
    assert!(session.sources[0].has_sr);
}

#[test]
fn removing_a_source_drops_only_it() {
    let mut session = RtpSession::with_ssrc(1);
    session.ingest_rtp(&header(30, 1, 0), 0);
    session.ingest_rtp(&header(10, 1, 0), 0);
    session.ingest_rtp(&header(20, 1, 0), 0);
    session.remove_source(20);
    session.remove_source(99);
    let ssrcs: Vec<u32> = session.sources.iter().map(|s| s.ssrc).collect();
    assert_eq!(ssrcs, vec![10, 30]);
}
