use screen_broadcast::types::{
    BroadcastConfig, BroadcastError, FramePacket, NetworkMode, PacketType, StreamConfig,
    FRAME_HEADER_SIZE, MAX_PACKET_SIZE, MULTICAST_ADDR, MULTICAST_PORT, MULTICAST_TTL,
    READ_TIMEOUT_MS, RECV_BUFFER_BYTES, SEND_BUFFER_BYTES,
};

#[test]
fn stream_config_defaults() {
    let c = StreamConfig::default();
    assert_eq!(c.port, 5000);
    assert_eq!(c.fps, 15);
    assert_eq!(c.quality, 28);
    assert_eq!(c.network_mode, NetworkMode::Broadcast);
}

#[test]
fn broadcast_config_defaults() {
    let c = BroadcastConfig::default();
    assert_eq!(c.multicast_addr, "239.255.0.1");
    assert_eq!(c.port, 5000);
    assert_eq!(c.fps, 15);
    assert_eq!(c.quality, 28);
    assert_eq!(c.width, 1920);
    assert_eq!(c.height, 1080);
    let d = c.clone();
    assert_eq!(d.multicast_addr, c.multicast_addr);
    assert_eq!(d.width, 1920);
}

#[test]
fn constants_have_their_values() {
    assert_eq!(MULTICAST_ADDR, "239.255.0.1");
    assert_eq!(MULTICAST_PORT, 5000);
    assert_eq!(MAX_PACKET_SIZE, 1400);
    assert_eq!(FRAME_HEADER_SIZE, 16);
    assert_eq!(SEND_BUFFER_BYTES, 2 * 1024 * 1024);
    assert_eq!(RECV_BUFFER_BYTES, 4 * 1024 * 1024);
    assert_eq!(READ_TIMEOUT_MS, 100);
    assert_eq!(MULTICAST_TTL, 1);
}

#[test]
fn network_mode_destinations() {
    assert_eq!(NetworkMode::Broadcast.destination(), [255, 255, 255, 255]);
    assert_eq!(NetworkMode::Multicast.destination(), [239, 255, 0, 1]);
}

#[test]
fn error_messages_name_their_kind() {
    assert_eq!(
        BroadcastError::CaptureError("no display".to_string()).message(),
        "Screen capture error: no display"
    );
    assert_eq!(BroadcastError::EncoderError("x".to_string()).message(), "Encoder error: x");
    assert_eq!(BroadcastError::NetworkError("y".to_string()).message(), "Network error: y");
    assert_eq!(BroadcastError::DecoderError("z".to_string()).message(), "Decoder error: z");
    assert_eq!(
        BroadcastError::ConfigError(String::new()).message(),
        "Configuration error: "
    );
}

#[test]
fn packet_type_codes() {
    assert_eq!(PacketType::KeyFrame.code(), 1);
    assert_eq!(PacketType::DeltaFrame.code(), 2);
    assert_eq!(PacketType::FrameFragment.code(), 3);
    assert_eq!(PacketType::FrameEnd.code(), 4);
    assert_eq!(PacketType::from_code(1), Some(PacketType::KeyFrame));
    assert_eq!(PacketType::from_code(2), Some(PacketType::DeltaFrame));
    assert_eq!(PacketType::from_code(3), Some(PacketType::FrameFragment));
    assert_eq!(PacketType::from_code(4), Some(PacketType::FrameEnd));
    assert_eq!(PacketType::from_code(0), None);
    assert_eq!(PacketType::from_code(5), None);
    assert_eq!(PacketType::from_code(255), None);
}

#[test]
fn frame_packet_serializes_big_endian() {
    let p = FramePacket {
        frame_id: 0x01020304,
        fragment_idx: 0x0506,
        total_fragments: 0x0708,
        packet_type: PacketType::FrameFragment,
        timestamp: 0x0A0B0C0D,
        data: vec![0xAA, 0xBB],
    };
    assert_eq!(
        p.serialize(),
        vec![1, 2, 3, 4, 5, 6, 7, 8, 3, 0, 0, 0, 0x0A, 0x0B, 0x0C, 0x0D, 0xAA, 0xBB]
    );
}

#[test]
fn frame_packet_round_trip() {
    for (kind, data) in [
        (PacketType::KeyFrame, vec![]),
        (PacketType::DeltaFrame, vec![1u8, 2, 3]),
        (PacketType::FrameEnd, vec![0u8; 1400]),
    ] {
        let p = FramePacket {
            frame_id: u32::MAX,
            fragment_idx: 65535,
            total_fragments: 1,
            packet_type: kind,
            timestamp: 123456789,
            data: data.clone(),
        };
        let q = FramePacket::deserialize(&p.serialize()).unwrap();
        assert_eq!(q.frame_id, u32::MAX);
        assert_eq!(q.fragment_idx, 65535);
        assert_eq!(q.total_fragments, 1);
        assert_eq!(q.packet_type, kind);
        assert_eq!(q.timestamp, 123456789);
        assert_eq!(q.data, data);
    }
}

#[test]
fn frame_packet_deserialize_rejects_short_and_unknown_type() {
    assert!(FramePacket::deserialize(&[0u8; 15]).is_none());
    assert!(FramePacket::deserialize(&[0u8; 16]).is_none());
    let mut bytes = [0u8; 16];
    bytes[8] = 5;
    assert!(FramePacket::deserialize(&bytes).is_none());
    bytes[8] = 4;
    bytes[9] = 0xFF;
    let p = FramePacket::deserialize(&bytes).unwrap();
    assert_eq!(p.packet_type, PacketType::FrameEnd);
    assert!(p.data.is_empty());
}

#[test]
fn frame_packet_clone_is_equal() {
    let p = FramePacket {
        frame_id: 9,
        fragment_idx: 1,
        total_fragments: 2,
        packet_type: PacketType::DeltaFrame,
        timestamp: 77,
        data: vec![4, 5, 6],
    };
    let q = p.clone();
    assert_eq!(q.serialize(), p.serialize());
}
