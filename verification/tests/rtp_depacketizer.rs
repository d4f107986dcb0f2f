use screen_broadcast::annexb::find_nal_units;
use screen_broadcast::rtp::{NalType, RtpDepacketizer, RtpHeader, RtpPacketizer};

fn access_unit(nals: &[Vec<u8>]) -> Vec<u8> {
    let mut data = Vec::new();
    for nal in nals {
        data.extend_from_slice(&[0, 0, 0, 1]);
        data.extend_from_slice(nal);
    }
    data
}

fn nal(header: u8, len: usize) -> Vec<u8> {
    let mut bytes = vec![0; len];
    bytes[0] = header;
    for (i, b) in bytes.iter_mut().enumerate().skip(1) {
        *b = (i % 251) as u8 + 1;
    }
    bytes
}

fn packet(seq: u16, ts: u32, marker: bool, payload: &[u8]) -> Vec<u8> {
    let mut h = RtpHeader::new(99);
    h.sequence = seq;
    h.timestamp = ts;
    h.marker = marker;
    let mut bytes = h.serialize().to_vec();
    bytes.extend_from_slice(payload);
    bytes
}

fn units(data: &[u8]) -> Vec<Vec<u8>> {
    find_nal_units(data).into_iter().map(|u| u.to_vec()).collect()
}

#[test]
fn single_nal_access_unit_round_trip() {
    let nals = vec![nal(0x67, 9), nal(0x68, 5), nal(0x65, 101)];
    let mut p = RtpPacketizer::with_ssrc(1);
    let packets = p.packetize(&access_unit(&nals), 0);
    let mut d = RtpDepacketizer::new();
    assert_eq!(d.depacketize(&packets[0]), None);
    assert_eq!(d.depacketize(&packets[1]), None);
    let frame = d.depacketize(&packets[2]).unwrap();
    let got = units(&frame);
    assert_eq!(got, nals);
    let types: Vec<u8> = got.iter().map(|n| n[0] & 0x1F).collect();
    assert_eq!(types, vec![7, 8, 5]);
    assert_eq!(frame, access_unit(&nals));
}

#[test]
fn fragmented_nal_round_trip() {
    let big = nal(0x61, 3000);
    let mut p = RtpPacketizer::with_ssrc(1);
    let packets = p.packetize(&access_unit(&[big.clone()]), 40);
    assert_eq!(packets.len(), 3);
    let mut d = RtpDepacketizer::new();
    assert_eq!(d.depacketize(&packets[0]), None);
    assert_eq!(d.depacketize(&packets[1]), None);
    let frame = d.depacketize(&packets[2]).unwrap();
    let got = units(&frame);
    assert_eq!(got.len(), 1);
    assert_eq!(got[0].len(), 3000);
    assert_eq!(got[0][0], 0x61);
    assert_eq!(got[0], big);
}

#[test]
fn round_trip_of_mixed_access_units_in_a_row() {
    let mut p = RtpPacketizer::with_ssrc(5);
    let mut d = RtpDepacketizer::new();
    for frame in 0..20u32 {
        let nals = vec![
            nal(0x67, 12),
            nal(0x68, 4),
            nal(0x65, 1400 + 17 * frame as usize),
            nal(0x41, 1 + frame as usize),
            nal(0x41, 7000),
        ];
        let packets = p.packetize(&access_unit(&nals), frame * 66);
        let mut out = Vec::new();
        for (i, packet) in packets.iter().enumerate() {
            let r = d.depacketize(packet);
            assert_eq!(r.is_some(), i == packets.len() - 1);
            if let Some(f) = r {
                out.push(f);
            }
        }
        assert_eq!(out.len(), 1);
        assert_eq!(units(&out[0]), nals);
    }
}

#[test]
fn lost_middle_fragment_drops_the_nal_unit() {
    let big = nal(0x61, 3000);
    let mut p = RtpPacketizer::with_ssrc(1);
    let packets = p.packetize(&access_unit(&[big]), 40);
    let mut d = RtpDepacketizer::new();
    assert_eq!(d.depacketize(&packets[0]), None);
    assert_eq!(d.depacketize(&packets[2]), None);
    let next = p.packetize(&access_unit(&[nal(0x41, 30)]), 80);
    let frame = d.depacketize(&next[0]).unwrap();
    assert_eq!(units(&frame), vec![nal(0x41, 30)]);
}

#[test]
fn lost_fragment_keeps_the_units_that_arrived_whole() {
    let nals = vec![nal(0x67, 10), nal(0x65, 3000), nal(0x41, 20)];
    let mut p = RtpPacketizer::with_ssrc(1);
    let packets = p.packetize(&access_unit(&nals), 40);
    assert_eq!(packets.len(), 5);
    let mut d = RtpDepacketizer::new();
    let mut out = None;
    for (i, packet) in packets.iter().enumerate() {
        if i == 2 {
            continue;
        }
        out = d.depacketize(packet);
    }
    assert_eq!(units(&out.unwrap()), vec![nal(0x67, 10), nal(0x41, 20)]);
}

#[test]
fn lost_first_fragment_drops_the_nal_unit() {
    let mut p = RtpPacketizer::with_ssrc(1);
    let packets = p.packetize(&access_unit(&[nal(0x65, 3000)]), 40);
    let mut d = RtpDepacketizer::new();
    assert_eq!(d.depacketize(&packets[1]), None);
    assert_eq!(d.depacketize(&packets[2]), None);
}

#[test]
fn new_timestamp_discards_the_unfinished_access_unit() {
    let mut d = RtpDepacketizer::new();
    assert_eq!(d.depacketize(&packet(0, 100, false, &[0x67, 1, 2])), None);
    let frame = d.depacketize(&packet(1, 200, true, &[0x41, 3])).unwrap();
    assert_eq!(frame, vec![0, 0, 0, 1, 0x41, 3]);
}

#[test]
fn same_timestamp_collects_units_across_a_gap() {
    let mut d = RtpDepacketizer::new();
    assert_eq!(d.depacketize(&packet(0, 100, false, &[0x67, 1, 2])), None);
    let frame = d.depacketize(&packet(5, 100, true, &[0x41, 3])).unwrap();
    assert_eq!(frame, vec![0, 0, 0, 1, 0x67, 1, 2, 0, 0, 0, 1, 0x41, 3]);
}

#[test]
fn first_packet_with_timestamp_zero_is_taken() {
    let mut d = RtpDepacketizer::new();
    let frame = d.depacketize(&packet(9, 0, true, &[0x65, 7])).unwrap();
    assert_eq!(frame, vec![0, 0, 0, 1, 0x65, 7]);
}

#[test]
fn rejects_short_wrong_version_and_wrong_payload_type() {
    let mut d = RtpDepacketizer::new();
    let good = packet(0, 1, true, &[0x65, 7]);
    assert_eq!(d.depacketize(&good[..11]), None);
    assert_eq!(d.depacketize(&good[..12]), None);
    let mut bad = good.clone();
    bad[0] = 0x40;
    assert_eq!(d.depacketize(&bad), None);
    let mut bad = good.clone();
    bad[1] = 0x80 | 97;
    assert_eq!(d.depacketize(&bad), None);
    let mut bad = good.clone();
    bad[0] = 0x81;
    assert_eq!(d.depacketize(&bad), None);
    assert!(d.depacketize(&good).is_some());
}

#[test]
fn rejected_packets_leave_no_trace() {
    let mut d = RtpDepacketizer::new();
    assert_eq!(d.depacketize(&packet(0, 100, false, &[0x7C, 0x85, 1, 2])), None);
    let mut bad = packet(1, 100, false, &[0x7C, 0x05, 9, 9]);
    bad[1] = 97;
    assert_eq!(d.depacketize(&bad), None);
    let frame = d.depacketize(&packet(1, 100, true, &[0x7C, 0x45, 3])).unwrap();
    assert_eq!(frame, vec![0, 0, 0, 1, 0x65, 1, 2, 3]);
}

#[test]
fn aggregate_packet_gives_each_unit() {
    let mut d = RtpDepacketizer::new();
    let payload = [24, 0, 3, 0x67, 1, 2, 0, 2, 0x68, 3, 0, 1, 0x65];
    let frame = d.depacketize(&packet(0, 1, true, &payload)).unwrap();
    assert_eq!(frame, vec![0, 0, 0, 1, 0x67, 1, 2, 0, 0, 0, 1, 0x68, 3, 0, 0, 0, 1, 0x65]);
}

#[test]
fn aggregate_packet_stops_at_a_cut_entry() {
    let mut d = RtpDepacketizer::new();
    let payload = [0x78, 0, 2, 0x67, 1, 0, 9, 0x68, 3];
    let frame = d.depacketize(&packet(0, 1, true, &payload)).unwrap();
    assert_eq!(frame, vec![0, 0, 0, 1, 0x67, 1]);
    let mut d = RtpDepacketizer::new();
    assert_eq!(d.depacketize(&packet(0, 1, true, &[24, 0])), None);
    assert_eq!(d.depacketize(&packet(1, 1, true, &[24, 0, 0])), None);
}

#[test]
fn unknown_payload_types_are_dropped() {
    for t in [0u8, 25, 26, 27, 29, 30, 31] {
        let mut d = RtpDepacketizer::new();
        assert_eq!(d.depacketize(&packet(0, 1, true, &[t, 1, 2, 3])), None);
        let frame = d.depacketize(&packet(1, 1, true, &[0x41, 3])).unwrap();
        assert_eq!(frame, vec![0, 0, 0, 1, 0x41, 3]);
    }
}

#[test]
fn fragment_of_one_byte_is_dropped() {
    let mut d = RtpDepacketizer::new();
    assert_eq!(d.depacketize(&packet(0, 1, true, &[0x7C])), None);
}

#[test]
fn every_single_unit_type_is_taken_whole() {
    for t in 1u8..=23 {
        let mut d = RtpDepacketizer::new();
        let frame = d.depacketize(&packet(0, 1, true, &[0x60 | t, 5])).unwrap();
        assert_eq!(frame, vec![0, 0, 0, 1, 0x60 | t, 5]);
    }
}

#[test]
fn sequence_wrap_is_no_gap() {
    let mut d = RtpDepacketizer::new();
    assert_eq!(d.depacketize(&packet(65535, 1, false, &[0x7C, 0x85, 1])), None);
    let frame = d.depacketize(&packet(0, 1, true, &[0x7C, 0x45, 2])).unwrap();
    assert_eq!(frame, vec![0, 0, 0, 1, 0x65, 1, 2]);
}

#[test]
fn marker_without_collected_bytes_hands_out_nothing() {
    let mut d = RtpDepacketizer::new();
    assert_eq!(d.depacketize(&packet(0, 1, true, &[0x7C, 0x05, 1])), None);
}

#[test]
fn nal_type_from_header_byte() {
    assert_eq!(NalType::from(0x41), NalType::Slice);
    assert_eq!(NalType::from(0x65), NalType::Idr);
    assert_eq!(NalType::from(0x06), NalType::Sei);
    assert_eq!(NalType::from(0x67), NalType::Sps);
    assert_eq!(NalType::from(0x68), NalType::Pps);
    assert_eq!(NalType::from(0x09), NalType::Aud);
    assert_eq!(NalType::from(24), NalType::StapA);
    assert_eq!(NalType::from(0x7C), NalType::FuA);
    assert_eq!(NalType::from(29), NalType::FuB);
    assert_eq!(NalType::from(2), NalType::SliceA);
    assert_eq!(NalType::from(3), NalType::SliceB);
    assert_eq!(NalType::from(4), NalType::SliceC);
    assert_eq!(NalType::from(0xE0), NalType::Unknown(0));
    assert_eq!(NalType::from(0xFF), NalType::Unknown(31));
}
