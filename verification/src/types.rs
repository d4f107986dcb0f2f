//! Configuration, errors and the legacy frame packet shared by the stages
//! of the pipeline.

use crate::bytes::{
    be16, be32, from_be16, from_be32, u16_from_be, u16_to_be, u32_from_be, u32_to_be,
};
use vstd::prelude::*;

verus! {

/// Multicast group of the media stream.
pub const MULTICAST_ADDR: &'static str = "239.255.0.1";

/// Default UDP port of the media stream.
pub const MULTICAST_PORT: u16 = 5000;

/// Largest datagram payload sent, chosen to stay below the usual MTU.
pub const MAX_PACKET_SIZE: usize = 1400;

/// Least size of the sender's socket buffer, in bytes.
pub const SEND_BUFFER_BYTES: usize = 2097152;

/// Least size of the receiver's socket buffer, in bytes.
pub const RECV_BUFFER_BYTES: usize = 4194304;

/// Milliseconds that a receiver waits for a datagram before it looks whether
/// it is to stop.
pub const READ_TIMEOUT_MS: u64 = 100;

/// Hops that a multicast datagram may travel: it stays on the subnet.
pub const MULTICAST_TTL: u32 = 1;

/// Size of the header of a [`FramePacket`].
pub const FRAME_HEADER_SIZE: usize = 16;

/// How the teacher addresses its datagrams.
#[derive(Clone, Copy, Debug, PartialEq, Eq, Structural)]
pub enum NetworkMode {
    /// To the subnet broadcast address.
    Broadcast,
    /// To the multicast group [`MULTICAST_ADDR`].
    Multicast,
}

impl NetworkMode {
    /// The IPv4 address that datagrams are sent to: the limited broadcast
    /// address, or the multicast group.
    pub open spec fn spec_destination(self) -> Seq<u8> {
        match self {
            NetworkMode::Broadcast => seq![255u8, 255u8, 255u8, 255u8],
            NetworkMode::Multicast => seq![239u8, 255u8, 0u8, 1u8],
        }
    }

    pub fn destination(&self) -> (address: [u8; 4])
        ensures
            address@ == self.spec_destination(),
    {
        let address: [u8; 4] = match self {
            NetworkMode::Broadcast => [255, 255, 255, 255],
            NetworkMode::Multicast => [239, 255, 0, 1],
        };
        assert(address@ =~= self.spec_destination());
        address
    }
}

/// Settings of one streaming session.
#[derive(Clone, Copy, Debug, PartialEq, Eq, Structural)]
pub struct StreamConfig {
    /// UDP port of the media stream.
    pub port: u16,
    /// Frames captured and encoded per second.
    pub fps: u32,
    /// Quantiser-like quality knob, 0 (best) to 51.
    pub quality: u32,
    pub network_mode: NetworkMode,
}

impl Default for StreamConfig {
    fn default() -> (config: Self)
        ensures
            config == (StreamConfig {
                port: 5000,
                fps: 15,
                quality: 28,
                network_mode: NetworkMode::Broadcast,
            }),
    {
        StreamConfig {
            port: MULTICAST_PORT,
            fps: 15,
            quality: 28,
            network_mode: NetworkMode::Broadcast,
        }
    }
}

/// Settings of a broadcast with a fixed picture size.
#[derive(Debug)]
pub struct BroadcastConfig {
    pub multicast_addr: String,
    pub port: u16,
    pub fps: u32,
    /// Quantiser-like quality knob, 0 (best) to 51.
    pub quality: u32,
    pub width: u32,
    pub height: u32,
}

impl Default for BroadcastConfig {
    fn default() -> (config: Self)
        ensures
            config.multicast_addr@ == MULTICAST_ADDR@,
            config.port == 5000,
            config.fps == 15,
            config.quality == 28,
            config.width == 1920,
            config.height == 1080,
    {
        BroadcastConfig {
            multicast_addr: String::from_str(MULTICAST_ADDR),
            port: MULTICAST_PORT,
            fps: 15,
            quality: 28,
            width: 1920,
            height: 1080,
        }
    }
}

impl Clone for BroadcastConfig {
    fn clone(&self) -> (copy: Self)
        ensures
            copy == *self,
    {
        BroadcastConfig {
            multicast_addr: self.multicast_addr.clone(),
            port: self.port,
            fps: self.fps,
            quality: self.quality,
            width: self.width,
            height: self.height,
        }
    }
}

/// What can go wrong in the pipeline, each with a text that says where.
#[derive(Debug)]
pub enum BroadcastError {
    CaptureError(String),
    EncoderError(String),
    NetworkError(String),
    DecoderError(String),
    ConfigError(String),
}

impl BroadcastError {
    /// The text that names the kind of error, with its separator.
    pub open spec fn prefix(self) -> Seq<char> {
        match self {
            BroadcastError::CaptureError(_) => "Screen capture error: "@,
            BroadcastError::EncoderError(_) => "Encoder error: "@,
            BroadcastError::NetworkError(_) => "Network error: "@,
            BroadcastError::DecoderError(_) => "Decoder error: "@,
            BroadcastError::ConfigError(_) => "Configuration error: "@,
        }
    }

    /// The text given with the error.
    pub open spec fn context(self) -> Seq<char> {
        match self {
            BroadcastError::CaptureError(text) => text@,
            BroadcastError::EncoderError(text) => text@,
            BroadcastError::NetworkError(text) => text@,
            BroadcastError::DecoderError(text) => text@,
            BroadcastError::ConfigError(text) => text@,
        }
    }

    /// The error as one line of text: its kind, then its context.
    pub fn message(&self) -> (text: String)
        ensures
            text@ == self.prefix() + self.context(),
    {
        match self {
            BroadcastError::CaptureError(context) => String::from_str(
                "Screen capture error: ",
            ).concat(context.as_str()),
            BroadcastError::EncoderError(context) => String::from_str("Encoder error: ").concat(
                context.as_str(),
            ),
            BroadcastError::NetworkError(context) => String::from_str("Network error: ").concat(
                context.as_str(),
            ),
            BroadcastError::DecoderError(context) => String::from_str("Decoder error: ").concat(
                context.as_str(),
            ),
            BroadcastError::ConfigError(context) => String::from_str(
                "Configuration error: ",
            ).concat(context.as_str()),
        }
    }
}

/// Kind of a [`FramePacket`].
#[derive(Clone, Copy, Debug, PartialEq, Eq, Structural)]
pub enum PacketType {
    KeyFrame,
    DeltaFrame,
    FrameFragment,
    FrameEnd,
}

impl PacketType {
    /// The byte that stands for this kind on the wire.
    pub open spec fn spec_code(self) -> u8 {
        match self {
            PacketType::KeyFrame => 1,
            PacketType::DeltaFrame => 2,
            PacketType::FrameFragment => 3,
            PacketType::FrameEnd => 4,
        }
    }

    /// The kind that a wire byte stands for, if it stands for one.
    pub open spec fn spec_from_code(code: u8) -> Option<PacketType> {
        if code == 1 {
            Some(PacketType::KeyFrame)
        } else if code == 2 {
            Some(PacketType::DeltaFrame)
        } else if code == 3 {
            Some(PacketType::FrameFragment)
        } else if code == 4 {
            Some(PacketType::FrameEnd)
        } else {
            None
        }
    }

    pub fn code(&self) -> (code: u8)
        ensures
            code == self.spec_code(),
    {
        match self {
            PacketType::KeyFrame => 1,
            PacketType::DeltaFrame => 2,
            PacketType::FrameFragment => 3,
            PacketType::FrameEnd => 4,
        }
    }

    pub fn from_code(code: u8) -> (kind: Option<PacketType>)
        ensures
            kind == Self::spec_from_code(code),
    {
        match code {
            1 => Some(PacketType::KeyFrame),
            2 => Some(PacketType::DeltaFrame),
            3 => Some(PacketType::FrameFragment),
            4 => Some(PacketType::FrameEnd),
            _ => None,
        }
    }
}

/// A fragment of an encoded frame in the legacy framing.
///
/// ```text
/// [0-3]   frame id
/// [4-5]   fragment index
/// [6-7]   total fragments
/// [8]     packet type
/// [9-11]  reserved, zero
/// [12-15] timestamp
/// [16..]  data
/// ```
/// All numbers are big-endian.
#[derive(Debug)]
pub struct FramePacket {
    pub frame_id: u32,
    pub fragment_idx: u16,
    pub total_fragments: u16,
    pub packet_type: PacketType,
    pub timestamp: u32,
    pub data: Vec<u8>,
}

impl Clone for FramePacket {
    fn clone(&self) -> (copy: Self)
        ensures
            copy@ == self@,
    {
        FramePacket {
            frame_id: self.frame_id,
            fragment_idx: self.fragment_idx,
            total_fragments: self.total_fragments,
            packet_type: self.packet_type,
            timestamp: self.timestamp,
            data: self.data.clone(),
        }
    }
}

/// A [`FramePacket`] as a mathematical value.
pub struct FramePacketView {
    pub frame_id: u32,
    pub fragment_idx: u16,
    pub total_fragments: u16,
    pub packet_type: PacketType,
    pub timestamp: u32,
    pub data: Seq<u8>,
}

impl View for FramePacket {
    type V = FramePacketView;

    open spec fn view(&self) -> FramePacketView {
        FramePacketView {
            frame_id: self.frame_id,
            fragment_idx: self.fragment_idx,
            total_fragments: self.total_fragments,
            packet_type: self.packet_type,
            timestamp: self.timestamp,
            data: self.data@,
        }
    }
}

impl FramePacketView {
    /// The bytes that stand for the packet on the wire.
    pub open spec fn wire(self) -> Seq<u8> {
        be32(self.frame_id) + be16(self.fragment_idx) + be16(self.total_fragments) + seq![
            self.packet_type.spec_code(),
            0u8,
            0u8,
            0u8,
        ] + be32(self.timestamp) + self.data
    }

    /// The packet that `bytes` stand for: they must hold the sixteen bytes
    /// of the header, with a known packet type. The reserved bytes are not
    /// looked at.
    pub open spec fn parse(bytes: Seq<u8>) -> Option<FramePacketView> {
        if bytes.len() < 16 {
            None
        } else {
            match PacketType::spec_from_code(bytes[8]) {
                None => None,
                Some(packet_type) => Some(
                    FramePacketView {
                        frame_id: from_be32(bytes[0], bytes[1], bytes[2], bytes[3]),
                        fragment_idx: from_be16(bytes[4], bytes[5]),
                        total_fragments: from_be16(bytes[6], bytes[7]),
                        packet_type,
                        timestamp: from_be32(bytes[12], bytes[13], bytes[14], bytes[15]),
                        data: bytes.subrange(16, bytes.len() as int),
                    },
                ),
            }
        }
    }
}

impl FramePacket {
    pub fn serialize(&self) -> (buf: Vec<u8>)
        ensures
            buf@ == self@.wire(),
    {
        let id: [u8; 4] = u32_to_be(self.frame_id);
        let idx: [u8; 2] = u16_to_be(self.fragment_idx);
        let total: [u8; 2] = u16_to_be(self.total_fragments);
        let ts: [u8; 4] = u32_to_be(self.timestamp);
        let mut buf: Vec<u8> = Vec::new();
        buf.extend_from_slice(id.as_slice());
        buf.extend_from_slice(idx.as_slice());
        buf.extend_from_slice(total.as_slice());
        buf.push(self.packet_type.code());
        buf.push(0);
        buf.push(0);
        buf.push(0);
        buf.extend_from_slice(ts.as_slice());
        buf.extend_from_slice(self.data.as_slice());
        assert(buf@ =~= self@.wire());
        buf
    }

    pub fn deserialize(data: &[u8]) -> (packet: Option<Self>)
        ensures
            match packet {
                Some(p) => FramePacketView::parse(data@) == Some(p@),
                None => FramePacketView::parse(data@) is None,
            },
    {
        if data.len() < FRAME_HEADER_SIZE {
            return None;
        }
        let packet_type: PacketType = match PacketType::from_code(data[8]) {
            Some(kind) => kind,
            None => {
                return None;
            },
        };
        Some(
            FramePacket {
                frame_id: u32_from_be(data[0], data[1], data[2], data[3]),
                fragment_idx: u16_from_be(data[4], data[5]),
                total_fragments: u16_from_be(data[6], data[7]),
                packet_type,
                timestamp: u32_from_be(data[12], data[13], data[14], data[15]),
                data: vstd::slice::slice_to_vec(
                    vstd::slice::slice_subrange(data, FRAME_HEADER_SIZE, data.len()),
                ),
            },
        )
    }
}

/// Reading what a packet serializes to gives the packet back.
pub proof fn lemma_frame_packet_round_trip(packet: FramePacketView)
    ensures
        FramePacketView::parse(packet.wire()) == Some(packet),
{
    let bytes = packet.wire();
    let got = FramePacketView::parse(bytes).unwrap();
    crate::bytes::lemma_be_round_trip(packet.fragment_idx, packet.frame_id);
    crate::bytes::lemma_be_round_trip(packet.total_fragments, packet.timestamp);
    assert(bytes.len() == 16 + packet.data.len());
    assert(bytes[8] == packet.packet_type.spec_code());
    assert(bytes[0] == be32(packet.frame_id)[0] && bytes[1] == be32(packet.frame_id)[1] && bytes[2]
        == be32(packet.frame_id)[2] && bytes[3] == be32(packet.frame_id)[3]);
    assert(bytes[4] == be16(packet.fragment_idx)[0] && bytes[5] == be16(packet.fragment_idx)[1]);
    assert(bytes[6] == be16(packet.total_fragments)[0] && bytes[7] == be16(
        packet.total_fragments,
    )[1]);
    assert(bytes[12] == be32(packet.timestamp)[0] && bytes[13] == be32(packet.timestamp)[1]
        && bytes[14] == be32(packet.timestamp)[2] && bytes[15] == be32(packet.timestamp)[3]);
    assert(got.data =~= packet.data);
}

} // verus!
