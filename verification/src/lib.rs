//! Core of a LAN screen-broadcast pipeline: RTP/H.264 framing, colour
//! conversion, peer discovery and the receiver's recovery rules.

pub mod annexb;
pub mod bytes;
pub mod clock;
pub mod codec;
pub mod color;
pub mod decoder;
pub mod discovery;
pub mod encoder;
pub mod events;
pub mod hex;
pub mod pipeline;
pub mod receiver;
pub mod render;
pub mod rtp;
pub mod types;
