//! RTP transport of H.264: the fixed header, the packetizer and the
//! depacketizer.

pub mod depacketizer;
pub mod header;
pub mod laws;
pub mod nal;
pub mod packetizer;

pub use depacketizer::RtpDepacketizer;
pub use header::{
    RtpHeader, MAX_RTP_PAYLOAD, RTP_HEADER_SIZE, RTP_PAYLOAD_TYPE_H264, RTP_VERSION,
};
pub use nal::NalType;
pub use packetizer::RtpPacketizer;
