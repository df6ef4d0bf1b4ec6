use rtcp::bytes::{read_u32_be, read_u64_be};
use rtcp::compound::{decode_compound, encode_compound, CompoundRtcpPacket};
use rtcp::decode::decode_packet;
use rtcp::encode::encode_packet;
use rtcp::error::CodecError;
use rtcp::ident::{SDES_ITEM, CSRC, SSRC};
use rtcp::packet::{Packet, ReportBlock, SdesChunk, SdesItem, SenderInfo, APP, BYE, RR, SDES, SR};
use rtcp::rtp::decode_rtp_header;

fn block(ssrc: u32) -> ReportBlock {
    ReportBlock {
        ssrc,
        fraction_lost: 13,
        cumulative_lost: 0x0a0b0c,
        ext_highest_seq: 65537,
        jitter: 7,
        lsr: 0x11223344,
        dlsr: 0x55667788,
    }
}

fn sample_sr() -> Packet {
    Packet::SR(SR {
        ssrc: 0xdeadbeef,
        sender_info: SenderInfo {
            ntp_timestamp: 0x0102030405060708,
            rtp_timestamp: 160,
            packet_count: 3,
            octet_count: 480,
        },
        reports: vec![block(1), block(2)],
    })
}

fn sample_rr() -> Packet {
    Packet::RR(RR { ssrc: 42, reports: vec![block(9)] })
}

fn sample_sdes() -> Packet {
    Packet::SDES(SDES {
        chunks: vec![
            SdesChunk {
                ssrc: 7,
                items: vec![
                    SdesItem { kind: 1, text: b"user@host".to_vec() },
                    SdesItem { kind: 6, text: b"tool".to_vec() },
                ],
            },
            SdesChunk { ssrc: 8, items: vec![] },
        ],
    })
}

fn sample_bye() -> Packet {
    Packet::BYE(BYE { ssrcs: vec![5, 6], reason: Some(b"done".to_vec()) })
}

fn sample_app() -> Packet {
    Packet::APP(APP { subtype: 3, ssrc: 77, name: *b"TEST", data: vec![1, 2, 3, 4, 5, 6, 7, 8] })
}

fn round_trip(p: Packet) {
    let bytes = encode_packet(&p).unwrap();
    assert_eq!(bytes.len() % 4, 0);
    assert_eq!(decode_packet(&bytes), Ok(p));
}

#[test]
fn round_trip_sender_report() {
    round_trip(sample_sr());
}

#[test]
fn round_trip_receiver_report() {
    round_trip(sample_rr());
}

#[test]
fn round_trip_source_description() {
    round_trip(sample_sdes());
}

#[test]
fn round_trip_goodbye() {
    round_trip(sample_bye());
    round_trip(Packet::BYE(BYE { ssrcs: vec![5], reason: None }));
    round_trip(Packet::BYE(BYE { ssrcs: vec![], reason: Some(vec![]) }));
}

#[test]
fn round_trip_application() {
    round_trip(sample_app());
    round_trip(Packet::APP(APP { subtype: 31, ssrc: 1, name: *b"ABCD", data: vec![] }));
}

#[test]
fn receiver_report_wire_bytes() {
    let p = Packet::RR(RR { ssrc: 0x01020304, reports: vec![] });
    assert_eq!(encode_packet(&p).unwrap(), vec![0x80, 201, 0, 1, 1, 2, 3, 4]);
}

#[test]
fn goodbye_reason_is_padded() {
    let p = Packet::BYE(BYE { ssrcs: vec![1], reason: Some(b"ab".to_vec()) });
    assert_eq!(
        encode_packet(&p).unwrap(),
        vec![0x81, 203, 0, 2, 0, 0, 0, 1, 2, b'a', b'b', 0]
    );
}

#[test]
fn sdes_chunk_is_terminated_and_padded() {
    let p = Packet::SDES(SDES {
        chunks: vec![SdesChunk { ssrc: 2, items: vec![SdesItem { kind: 1, text: b"x".to_vec() }] }],
    });
    assert_eq!(encode_packet(&p).unwrap(), vec![0x81, 202, 0, 2, 0, 0, 0, 2, 1, 1, b'x', 0]);
}

#[test]
fn cumulative_lost_saturates_on_the_wire() {
    let mut b = block(1);
    b.cumulative_lost = 0x1234_5678;
    let p = Packet::RR(RR { ssrc: 1, reports: vec![b] });
    let bytes = encode_packet(&p).unwrap();
    assert_eq!(&bytes[13..16], &[0xff, 0xff, 0xff]);
    match decode_packet(&bytes).unwrap() {
        Packet::RR(rr) => assert_eq!(rr.reports[0].cumulative_lost, 0xffffff),
        _ => panic!("expected a receiver report"),
    }
}

#[test]
fn too_many_report_blocks_is_invalid_count() {
    let reports: Vec<ReportBlock> = (0..32).map(block).collect();
    let p = Packet::RR(RR { ssrc: 1, reports });
    assert_eq!(encode_packet(&p), Err(CodecError::InvalidCount));
}

#[test]
fn app_subtype_over_31_is_invalid_count() {
    let p = Packet::APP(APP { subtype: 32, ssrc: 1, name: *b"ABCD", data: vec![] });
    assert_eq!(encode_packet(&p), Err(CodecError::InvalidCount));
}

#[test]
fn unaligned_app_data_is_length_mismatch() {
    let p = Packet::APP(APP { subtype: 0, ssrc: 1, name: *b"ABCD", data: vec![1, 2, 3] });
    assert_eq!(encode_packet(&p), Err(CodecError::LengthMismatch));
}

#[test]
fn long_text_is_length_mismatch() {
    let p = Packet::BYE(BYE { ssrcs: vec![], reason: Some(vec![b'a'; 256]) });
    assert_eq!(encode_packet(&p), Err(CodecError::LengthMismatch));
    let q = Packet::SDES(SDES {
        chunks: vec![SdesChunk { ssrc: 1, items: vec![SdesItem { kind: 0, text: vec![] }] }],
    });
    assert_eq!(encode_packet(&q), Err(CodecError::LengthMismatch));
}

#[test]
fn compound_round_trip() {
    let c = CompoundRtcpPacket {
        packets: vec![sample_sr(), sample_sdes(), sample_bye(), sample_app(), sample_rr()],
        skipped: vec![],
    };
    let bytes = encode_compound(&c).unwrap();
    assert_eq!(decode_compound(&bytes), Ok(c));
}

#[test]
fn compound_encode_reports_first_error() {
    let bad = Packet::APP(APP { subtype: 40, ssrc: 1, name: *b"ABCD", data: vec![] });
    let c = CompoundRtcpPacket { packets: vec![sample_rr(), bad], skipped: vec![] };
    assert_eq!(encode_compound(&c), Err(CodecError::InvalidCount));
}

#[test]
fn short_buffer_is_too_short() {
    assert_eq!(decode_compound(&[]), Err(CodecError::BufferTooShort));
    assert_eq!(decode_compound(&[0x80, 201, 0]), Err(CodecError::BufferTooShort));
}

#[test]
fn trailing_partial_header_is_too_short() {
    let mut bytes = encode_packet(&sample_rr()).unwrap();
    bytes.extend_from_slice(&[0x80, 201]);
    assert_eq!(decode_compound(&bytes), Err(CodecError::BufferTooShort));
}

#[test]
fn wrong_version_is_rejected() {
    for first in [0x40u8, 0xc0u8] {
        let bytes = vec![first, 201, 0, 1, 0, 0, 0, 1];
        assert_eq!(decode_compound(&bytes), Err(CodecError::InvalidVersion));
    }
}

#[test]
fn length_beyond_buffer_is_mismatch() {
    let bytes = vec![0x80, 201, 0, 5, 0, 0, 0, 1];
    assert_eq!(decode_compound(&bytes), Err(CodecError::LengthMismatch));
}

#[test]
fn wrong_report_length_is_mismatch() {
    // RC says one block, but the packet holds only the SSRC.
    let bytes = vec![0x81, 201, 0, 1, 0, 0, 0, 1];
    assert_eq!(decode_compound(&bytes), Err(CodecError::LengthMismatch));
}

#[test]
fn unknown_type_is_skipped() {
    let mut bytes = encode_packet(&sample_sr()).unwrap();
    bytes.extend_from_slice(&[0x80, 250, 0, 1, 9, 9, 9, 9]);
    bytes.extend_from_slice(&encode_packet(&sample_rr()).unwrap());
    let c = decode_compound(&bytes).unwrap();
    assert_eq!(c.packets, vec![sample_sr(), sample_rr()]);
    assert_eq!(c.skipped, vec![250]);
    assert!(c.starts_with_report());
}

#[test]
fn decode_packet_flags_unknown_type() {
    assert_eq!(decode_packet(&[0x80, 250, 0, 0]), Err(CodecError::UnknownPacketType));
}

#[test]
fn leading_goodbye_is_flagged() {
    let bytes = encode_packet(&sample_bye()).unwrap();
    let c = decode_compound(&bytes).unwrap();
    assert!(!c.starts_with_report());
}

#[test]
fn bounded_reads() {
    let buf = [1u8, 2, 3, 4, 5, 6, 7, 8];
    assert_eq!(read_u32_be(&buf, 4), Ok(0x05060708));
    assert_eq!(read_u32_be(&buf, 5), Err(CodecError::BufferTooShort));
    assert_eq!(read_u64_be(&buf, 0), Ok(0x0102030405060708));
    assert_eq!(read_u64_be(&buf, 1), Err(CodecError::BufferTooShort));
}

#[test]
fn identifiers_to_bytes() {
    assert_eq!(SSRC::from_u32(0x01020304).to_bytes(), vec![1, 2, 3, 4]);
    assert_eq!(CSRC::from_u32(0xa0b0c0d0).to_bytes(), vec![0xa0, 0xb0, 0xc0, 0xd0]);
    assert_eq!(SSRC::from_u32(9).to_u32(), 9);
    assert_eq!(CSRC::from_u32(10).to_u32(), 10);
    let _ = SSRC::new().to_u32();
    let _ = CSRC::new().to_u32();
}

#[test]
fn sdes_item_codes() {
    for n in 0..=255u8 {
        assert_eq!(SDES_ITEM::from_u8(n).unwrap().to_u8(), n);
    }
    assert_eq!(SDES_ITEM::from_u8(1), Ok(SDES_ITEM::CNAME));
    assert_eq!(SDES_ITEM::from_u8(200), Ok(SDES_ITEM::UNASSIGNED(200)));
    assert_eq!(SdesItem { kind: 6, text: vec![] }.item_type(), SDES_ITEM::TOOL);
}

#[test]
fn non_ascii_text_is_reported_per_item() {
    let good = SdesItem { kind: 1, text: b"ok".to_vec() };
    let bad = SdesItem { kind: 2, text: vec![b'a', 0xc3] };
    assert_eq!(good.check_text(), Ok(()));
    assert_eq!(bad.check_text(), Err(CodecError::TextDecodeError));
}

#[test]
fn rtp_header_fields() {
    let buf = vec![0x81, 0xe0, 0x12, 0x34, 0, 0, 0, 160, 0, 0, 0, 42, 0, 0, 0, 7, 0xaa];
    let h = decode_rtp_header(&buf).unwrap();
    assert!(h.marker);
    assert_eq!(h.payload_type, 0x60);
    assert_eq!(h.sequence, 0x1234);
    assert_eq!(h.timestamp, 160);
    assert_eq!(h.ssrc, 42);
    assert_eq!(h.csrcs, vec![7]);
}

#[test]
fn rtp_header_errors() {
    assert_eq!(decode_rtp_header(&[0x80; 11]), Err(CodecError::BufferTooShort));
    assert_eq!(decode_rtp_header(&[0x40; 12]), Err(CodecError::InvalidVersion));
    let mut short = vec![0x82u8];
    short.extend_from_slice(&[0; 15]);
    assert_eq!(decode_rtp_header(&short), Err(CodecError::BufferTooShort));
}

#[test]
fn per_type_encoders_match_packet_encoder() {
    let sr = SR { ssrc: 3, sender_info: SenderInfo { ntp_timestamp: 1, rtp_timestamp: 2, packet_count: 3, octet_count: 4 }, reports: vec![block(4)] };
    assert_eq!(sr.to_bytes(), encode_packet(&Packet::SR(sr.clone())));
    assert_eq!(sr.to_bytes().unwrap().len(), 52);
    let bye = BYE { ssrcs: vec![1, 2, 3], reason: None };
    assert_eq!(bye.to_bytes().unwrap(), vec![0x83, 203, 0, 3, 0, 0, 0, 1, 0, 0, 0, 2, 0, 0, 0, 3]);
    let app = APP { subtype: 1, ssrc: 2, name: *b"NAME", data: vec![9, 9, 9, 9] };
    assert_eq!(
        app.to_bytes().unwrap(),
        vec![0x81, 204, 0, 3, 0, 0, 0, 2, b'N', b'A', b'M', b'E', 9, 9, 9, 9]
    );
    let rr = RR { ssrc: 1, reports: vec![] };
    assert_eq!(rr.to_bytes().unwrap(), vec![0x80, 201, 0, 1, 0, 0, 0, 1]);
    let sdes = SDES { chunks: vec![] };
    assert_eq!(sdes.to_bytes().unwrap(), vec![0x80, 202, 0, 0]);
}

#[test]
fn nonzero_padding_is_rejected() {
    // SDES chunk: SSRC 2, CNAME "xy", END, then three padding bytes.
    let mut sdes = vec![0x81, 202, 0, 3, 0, 0, 0, 2, 1, 2, b'x', b'y', 0, 0, 0, 0];
    assert!(decode_packet(&sdes).is_ok());
    sdes[13] = 7;
    assert_eq!(decode_packet(&sdes), Err(CodecError::TextDecodeError));
    // BYE reason "ab" followed by a non-zero padding byte.
    let bye = vec![0x81, 203, 0, 2, 0, 0, 0, 1, 2, b'a', b'b', 5];
    assert_eq!(decode_packet(&bye), Err(CodecError::TextDecodeError));
}

#[test]
fn sdes_with_missing_chunk_is_too_short() {
    // SC says two chunks, only one is present.
    let bytes = vec![0x82, 202, 0, 2, 0, 0, 0, 2, 1, 1, b'x', 0];
    assert_eq!(decode_packet(&bytes), Err(CodecError::BufferTooShort));
}
