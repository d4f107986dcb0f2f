//! The fixed twelve-byte RTP header.
//!
//! ```text
//!  0                   1                   2                   3
//!  0 1 2 3 4 5 6 7 8 9 0 1 2 3 4 5 6 7 8 9 0 1 2 3 4 5 6 7 8 9 0 1
//! +-+-+-+-+-+-+-+-+-+-+-+-+-+-+-+-+-+-+-+-+-+-+-+-+-+-+-+-+-+-+-+-+
//! |V=2|P|X|  CC   |M|     PT      |       sequence number         |
//! +-+-+-+-+-+-+-+-+-+-+-+-+-+-+-+-+-+-+-+-+-+-+-+-+-+-+-+-+-+-+-+-+
//! |                           timestamp                           |
//! +-+-+-+-+-+-+-+-+-+-+-+-+-+-+-+-+-+-+-+-+-+-+-+-+-+-+-+-+-+-+-+-+
//! |           synchronization source (SSRC) identifier            |
//! +-+-+-+-+-+-+-+-+-+-+-+-+-+-+-+-+-+-+-+-+-+-+-+-+-+-+-+-+-+-+-+-+
//! ```

use crate::bytes::{
    be16, be32, bit, from_be16, from_be32, u16_from_be, u16_to_be, u32_from_be, u32_to_be,
};
use vstd::prelude::*;

verus! {

pub const RTP_VERSION: u8 = 2;

/// Dynamic payload type used for H.264.
pub const RTP_PAYLOAD_TYPE_H264: u8 = 96;

pub const RTP_HEADER_SIZE: usize = 12;

/// Largest RTP payload sent, chosen to stay below the usual MTU.
pub const MAX_RTP_PAYLOAD: usize = 1400;

#[derive(Clone, Copy, Debug, PartialEq, Eq, Structural)]
pub struct RtpHeader {
    /// Two bits, always 2.
    pub version: u8,
    pub padding: bool,
    pub extension: bool,
    /// Four bits.
    pub csrc_count: u8,
    /// Set on the last packet of an access unit.
    pub marker: bool,
    /// Seven bits.
    pub payload_type: u8,
    pub sequence: u16,
    pub timestamp: u32,
    pub ssrc: u32,
}

impl RtpHeader {
    /// Every field fits the bits that the wire format gives it.
    pub open spec fn fits_wire(self) -> bool {
        self.version < 4 && self.csrc_count < 16 && self.payload_type < 128
    }

    /// The twelve bytes that stand for this header on the wire. A field wider
    /// than its bits loses its high bits.
    pub open spec fn wire(self) -> Seq<u8> {
        seq![
            ((self.version % 4) * 64 + bit(self.padding) * 32 + bit(self.extension) * 16
                + self.csrc_count % 16) as u8,
            (bit(self.marker) * 128 + self.payload_type % 128) as u8,
        ] + be16(self.sequence) + be32(self.timestamp) + be32(self.ssrc)
    }

    /// The header that the first twelve bytes of `data` stand for, if there
    /// are twelve and they begin with version 2.
    pub open spec fn spec_parse(data: Seq<u8>) -> Option<RtpHeader> {
        if data.len() < 12 || data[0] / 64 != 2 {
            None
        } else {
            Some(
                RtpHeader {
                    version: 2,
                    padding: data[0] / 32 % 2 == 1,
                    extension: data[0] / 16 % 2 == 1,
                    csrc_count: data[0] % 16,
                    marker: data[1] / 128 == 1,
                    payload_type: data[1] % 128,
                    sequence: from_be16(data[2], data[3]),
                    timestamp: from_be32(data[4], data[5], data[6], data[7]),
                    ssrc: from_be32(data[8], data[9], data[10], data[11]),
                },
            )
        }
    }

    /// A header of an H.264 stream with the given source, everything else zero.
    pub fn new(ssrc: u32) -> (header: Self)
        ensures
            header == (RtpHeader {
                version: 2,
                padding: false,
                extension: false,
                csrc_count: 0,
                marker: false,
                payload_type: 96,
                sequence: 0,
                timestamp: 0,
                ssrc,
            }),
    {
        RtpHeader {
            version: RTP_VERSION,
            padding: false,
            extension: false,
            csrc_count: 0,
            marker: false,
            payload_type: RTP_PAYLOAD_TYPE_H264,
            sequence: 0,
            timestamp: 0,
            ssrc,
        }
    }

    pub fn serialize(&self) -> (buf: [u8; 12])
        ensures
            buf@ == self.wire(),
    {
        let p: u8 = if self.padding { 0x20 } else { 0 };
        let x: u8 = if self.extension { 0x10 } else { 0 };
        let m: u8 = if self.marker { 0x80 } else { 0 };
        let v: u8 = self.version;
        let cc: u8 = self.csrc_count;
        let pt: u8 = self.payload_type;
        assert(((v << 6) | p | x | (cc & 0x0f)) == (v % 4) * 64 + p + x + cc % 16) by (bit_vector)
            requires
                p == 0 || p == 0x20,
                x == 0 || x == 0x10,
        ;
        assert((m | (pt & 0x7f)) == m + pt % 128) by (bit_vector)
            requires
                m == 0 || m == 0x80,
        ;
        let seq: [u8; 2] = u16_to_be(self.sequence);
        let ts: [u8; 4] = u32_to_be(self.timestamp);
        let src: [u8; 4] = u32_to_be(self.ssrc);
        let buf: [u8; 12] = [
            (v << 6) | p | x | (cc & 0x0f),
            m | (pt & 0x7f),
            seq[0],
            seq[1],
            ts[0],
            ts[1],
            ts[2],
            ts[3],
            src[0],
            src[1],
            src[2],
            src[3],
        ];
        assert(buf@ =~= self.wire());
        buf
    }

    pub fn parse(data: &[u8]) -> (header: Option<Self>)
        ensures
            header == Self::spec_parse(data@),
    {
        if data.len() < RTP_HEADER_SIZE {
            return None;
        }
        let b0: u8 = data[0];
        let b1: u8 = data[1];
        assert((b0 >> 6) & 0x03 == b0 / 64 && ((b0 >> 5) & 0x01 == 1) == (b0 / 32 % 2 == 1) && ((b0
            >> 4) & 0x01 == 1) == (b0 / 16 % 2 == 1) && b0 & 0x0f == b0 % 16) by (bit_vector);
        assert(((b1 >> 7) & 0x01 == 1) == (b1 / 128 == 1) && b1 & 0x7f == b1 % 128)
            by (bit_vector);
        let version: u8 = (b0 >> 6) & 0x03;
        if version != RTP_VERSION {
            return None;
        }
        Some(
            RtpHeader {
                version,
                padding: (b0 >> 5) & 0x01 == 1,
                extension: (b0 >> 4) & 0x01 == 1,
                csrc_count: b0 & 0x0f,
                marker: (b1 >> 7) & 0x01 == 1,
                payload_type: b1 & 0x7f,
                sequence: u16_from_be(data[2], data[3]),
                timestamp: u32_from_be(data[4], data[5], data[6], data[7]),
                ssrc: u32_from_be(data[8], data[9], data[10], data[11]),
            },
        )
    }
}

} // verus!
