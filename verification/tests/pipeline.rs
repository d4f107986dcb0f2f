use openh264::encoder::{Encoder, EncoderConfig};
use openh264::OpenH264API;
use screen_broadcast::annexb::find_nal_units;
use screen_broadcast::decoder::{DecodedFrame, H264Decoder};
use screen_broadcast::encoder::H264Encoder;
use screen_broadcast::events::FrameData;
use screen_broadcast::pipeline::{
    calculate_bitrate, frame_for_window, frame_interval_ms, remaining_ms, resolve, CapturePacer,
    ReceiverState, SendCounters, StudentEvent, StudentPipeline, TeacherPipeline, STATS_INTERVAL_MS,
};
use screen_broadcast::rtp::{RtpHeader, RtpPacketizer};
use screen_broadcast::types::BroadcastError;

fn teacher(width: u32, height: u32, fps: u32) -> TeacherPipeline {
    let config = EncoderConfig::new()
        .set_bitrate_bps(800_000)
        .max_frame_rate(fps as f32)
        .enable_skip_frame(false);
    let codec = Encoder::with_api_config(OpenH264API::from_source(), config).unwrap();
    let encoder = H264Encoder::new(codec, width, height, fps).unwrap();
    TeacherPipeline::new(encoder, RtpPacketizer::with_ssrc(0xABCD))
}

fn picture(width: usize, height: usize, frame: usize) -> Vec<u8> {
    let mut rgb = Vec::with_capacity(width * height * 3);
    for y in 0..height {
        for x in 0..width {
            rgb.push(((x * 3 + frame * 11) % 256) as u8);
            rgb.push(((y * 5 + frame * 7) % 256) as u8);
            rgb.push(((x * y + frame) % 256) as u8);
        }
    }
    rgb
}

#[test]
fn bitrate_of_full_hd_at_thirty_frames() {
    assert_eq!(calculate_bitrate(1920, 1080, 30, 28), 2600);
}

#[test]
fn bitrate_base_goes_by_picture_size() {
    assert_eq!(calculate_bitrate(1280, 720, 30, 20), 1500);
    assert_eq!(calculate_bitrate(1280, 721, 30, 20), 3000);
    assert_eq!(calculate_bitrate(1920, 1080, 30, 20), 3000);
    assert_eq!(calculate_bitrate(1920, 1081, 30, 20), 5000);
    assert_eq!(calculate_bitrate(3840, 2160, 30, 20), 5000);
    assert_eq!(calculate_bitrate(0, 0, 30, 20), 1500);
}

#[test]
fn bitrate_scales_with_frame_rate_and_quality() {
    assert_eq!(calculate_bitrate(1920, 1080, 15, 28), 1300);
    assert_eq!(calculate_bitrate(1920, 1080, 60, 28), 5200);
    assert_eq!(calculate_bitrate(1920, 1080, 30, 0), 4000);
    assert_eq!(calculate_bitrate(1920, 1080, 30, 51), 1450);
    assert_eq!(calculate_bitrate(1280, 720, 15, 28), 650);
    assert_eq!(calculate_bitrate(1280, 720, 1, 28), 43);
    assert_eq!(calculate_bitrate(1920, 1080, 0, 28), 0);
}

#[test]
fn bitrate_quality_factor_is_three_tenths_at_least() {
    assert_eq!(calculate_bitrate(1920, 1080, 30, 61), 950);
    assert_eq!(calculate_bitrate(1920, 1080, 30, 62), 900);
    assert_eq!(calculate_bitrate(1920, 1080, 30, 63), 900);
    assert_eq!(calculate_bitrate(1920, 1080, 30, 80), 900);
    assert_eq!(calculate_bitrate(1920, 1080, 30, u32::MAX), 900);
}

#[test]
fn bitrate_stops_at_what_32_bits_hold() {
    assert_eq!(calculate_bitrate(u32::MAX, u32::MAX, u32::MAX, 0), u32::MAX);
    assert_eq!(calculate_bitrate(1, 1, u32::MAX, 20), u32::MAX);
    assert_eq!(calculate_bitrate(1, 1, 85_000_000, 20), 4_250_000_000);
    assert_eq!(calculate_bitrate(1, 1, 85_899_345, 20), 4_294_967_250);
    assert_eq!(calculate_bitrate(1, 1, 85_899_346, 20), u32::MAX);
}

#[test]
fn frame_interval_in_milliseconds() {
    assert_eq!(frame_interval_ms(15), 66);
    assert_eq!(frame_interval_ms(30), 33);
    assert_eq!(frame_interval_ms(60), 16);
    assert_eq!(frame_interval_ms(1), 1000);
    assert_eq!(frame_interval_ms(0), 1000);
    assert_eq!(frame_interval_ms(1001), 0);
}

#[test]
fn capture_is_due_after_a_frame_interval() {
    let mut pacer = CapturePacer::new(15, 1000);
    assert!(!pacer.is_due(1000));
    assert!(!pacer.is_due(1065));
    assert!(pacer.is_due(1066));
    assert!(pacer.is_due(5000));
    assert!(!pacer.is_due(0));
    assert_eq!(pacer.wait_ms(1000), 66);
    assert_eq!(pacer.wait_ms(1060), 6);
    assert_eq!(pacer.wait_ms(1066), 0);
    assert_eq!(pacer.wait_ms(9999), 0);
    pacer.mark_captured(1066);
    assert!(!pacer.is_due(1100));
    assert!(pacer.is_due(1132));
    pacer.set_fps(30);
    assert!(pacer.is_due(1099));
    assert!(!pacer.is_due(1098));
    pacer.set_fps(0);
    assert!(!pacer.is_due(2065));
    assert!(pacer.is_due(2066));
}

#[test]
fn decoder_failure_sends_the_receiver_back_to_waiting() {
    let (state, event) = resolve(Err(BroadcastError::DecoderError("bad".to_string())));
    assert_eq!(state, ReceiverState::WaitingKeyframe);
    match event {
        StudentEvent::DecodeFailed(e) => assert_eq!(e.message(), "Decoder error: bad"),
        other => panic!("unexpected {:?}", other),
    }
    let (state, event) = resolve(Ok(None));
    assert_eq!(state, ReceiverState::Decoding);
    assert!(matches!(event, StudentEvent::Pending));
    let frame = DecodedFrame { rgba_data: vec![1, 2, 3, 255], width: 1, height: 1 };
    let (state, event) = resolve(Ok(Some(frame)));
    assert_eq!(state, ReceiverState::Decoding);
    match event {
        StudentEvent::Frame(picture) => {
            assert_eq!(picture.rgba_data, vec![1, 2, 3, 255]);
            assert_eq!((picture.width, picture.height), (1, 1));
        }
        other => panic!("unexpected {:?}", other),
    }
}

#[test]
fn window_frame_is_packed_argb() {
    let frame = DecodedFrame {
        rgba_data: vec![0x10, 0x20, 0x30, 0xFF, 0xAA, 0xBB, 0xCC, 0x00],
        width: 2,
        height: 1,
    };
    let buffer = frame_for_window(&frame);
    assert_eq!(buffer.data, vec![0xFF102030, 0xFFAABBCC]);
    assert_eq!((buffer.width, buffer.height), (2, 1));
}

#[test]
fn frame_event_carries_base64_of_the_pixels() {
    let frame = DecodedFrame { rgba_data: vec![0, 0, 0, 255], width: 1, height: 1 };
    let event = FrameData::of_frame(&frame).unwrap();
    assert_eq!(event.width, 1);
    assert_eq!(event.height, 1);
    assert_eq!(event.data, "AAAA/w==");
    let frame = DecodedFrame { rgba_data: b"hello world~".to_vec(), width: 3, height: 1 };
    assert_eq!(FrameData::of_frame(&frame).unwrap().data, "aGVsbG8gd29ybGR+");
    let frame = DecodedFrame { rgba_data: vec![], width: 0, height: 0 };
    assert_eq!(FrameData::of_frame(&frame).unwrap().data, "");
    let event = FrameData::new(2, 3, "abc".to_string());
    assert_eq!((event.width, event.height, event.data.as_str()), (2, 3, "abc"));
}

#[test]
fn student_waits_for_a_keyframe() {
    let mut s = StudentPipeline::new(H264Decoder::new().unwrap());
    assert!(s.is_waiting_for_keyframe());
    let event = s.handle_access_unit(&[0, 0, 0, 1, 0x41, 1, 2, 3]);
    assert!(matches!(event, StudentEvent::Skipped));
    assert!(s.is_waiting_for_keyframe());
}

#[test]
fn teacher_packets_reach_the_student_as_frames() {
    let mut t = teacher(64, 64, 15);
    let mut s = StudentPipeline::new(H264Decoder::new().unwrap());
    let mut frames = 0;
    let mut sequence: u16 = 0;
    for i in 0..12usize {
        let out = t.process_frame(&picture(64, 64, i), (i * 66) as u32).unwrap();
        assert!(!out.bitstream.is_empty());
        assert_eq!(out.is_keyframe, i == 0);
        assert!(!out.packets.is_empty());
        let mut bytes = 0;
        for (k, packet) in out.packets.iter().enumerate() {
            assert!(packet.len() <= 1412);
            let h = RtpHeader::parse(packet).unwrap();
            assert_eq!(h.sequence, sequence);
            assert_eq!(h.timestamp, (i * 66 * 90) as u32);
            assert_eq!(h.ssrc, 0xABCD);
            assert_eq!(h.marker, k == out.packets.len() - 1);
            sequence = sequence.wrapping_add(1);
            bytes += packet.len();
            match s.handle_packet(packet) {
                None => assert!(k < out.packets.len() - 1),
                Some(StudentEvent::Frame(picture)) => {
                    assert_eq!(k, out.packets.len() - 1);
                    assert_eq!((picture.width, picture.height), (64, 64));
                    assert_eq!(picture.rgba_data.len(), 64 * 64 * 4);
                    let buffer = frame_for_window(&picture);
                    assert_eq!((buffer.width, buffer.height), (64, 64));
                    assert_eq!(buffer.data.len(), 64 * 64);
                    assert!(buffer.data.iter().all(|p| p >> 24 == 0xFF));
                    frames += 1;
                }
                Some(StudentEvent::Pending) => assert_eq!(k, out.packets.len() - 1),
                Some(other) => panic!("unexpected {:?}", other),
            }
        }
        t.record_sent(bytes);
        assert!(!s.is_waiting_for_keyframe());
    }
    assert!(frames >= 10);
    assert_eq!(t.frame_count(), 12);
    let counters = t.take_counters();
    assert_eq!(counters.frames, 12);
    assert!(counters.bytes > 0);
    assert_eq!(t.take_counters(), SendCounters { frames: 0, bytes: 0 });
    assert_eq!(t.frame_count(), 12);
}

#[test]
fn student_joining_late_skips_until_the_next_keyframe() {
    let mut t = teacher(64, 64, 15);
    let mut s = StudentPipeline::new(H264Decoder::new().unwrap());
    let mut first_decoded = None;
    for i in 0..40usize {
        let out = t.process_frame(&picture(64, 64, i), (i * 66) as u32).unwrap();
        if i < 5 {
            continue;
        }
        for packet in &out.packets {
            match s.handle_packet(packet) {
                Some(StudentEvent::Skipped) => {
                    assert!(!out.is_keyframe);
                    assert!(s.is_waiting_for_keyframe());
                }
                Some(StudentEvent::Frame(_)) | Some(StudentEvent::Pending) => {
                    if first_decoded.is_none() {
                        assert!(out.is_keyframe);
                        first_decoded = Some(i);
                    }
                }
                Some(StudentEvent::DecodeFailed(e)) => panic!("{}", e.message()),
                None => {}
            }
        }
    }
    // the codec may give a keyframe of its own before the interval is over
    let first = first_decoded.unwrap();
    assert!((5..=31).contains(&first), "first decoded frame {}", first);
}

#[test]
fn packets_of_a_frame_carry_its_nal_units() {
    let mut t = teacher(64, 64, 15);
    let out = t.process_frame(&picture(64, 64, 0), 0).unwrap();
    let nals = find_nal_units(&out.bitstream);
    let small = nals.iter().filter(|n| n.len() <= 1400).count();
    let fragments: usize =
        nals.iter().filter(|n| n.len() > 1400).map(|n| (n.len() - 1 + 1397) / 1398).sum();
    assert_eq!(out.packets.len(), small + fragments);
}

#[test]
fn rest_of_a_frame_interval() {
    assert_eq!(remaining_ms(66, 0), 66);
    assert_eq!(remaining_ms(66, 20), 46);
    assert_eq!(remaining_ms(66, 66), 0);
    assert_eq!(remaining_ms(66, 1000), 0);
    assert_eq!(remaining_ms(0, 0), 0);
    assert_eq!(STATS_INTERVAL_MS, 1000);
}

#[test]
fn teacher_frames_are_counted_by_the_sender_only_when_sent() {
    let mut t = teacher(32, 32, 15);
    let out = t.process_frame(&picture(32, 32, 0), 0).unwrap();
    assert!(out.is_keyframe);
    assert_eq!(t.frame_count(), 0);
    assert_eq!(t.take_counters(), SendCounters { frames: 0, bytes: 0 });
    t.record_sent(100);
    assert_eq!(t.frame_count(), 1);
    assert_eq!(t.take_counters(), SendCounters { frames: 1, bytes: 100 });
}
