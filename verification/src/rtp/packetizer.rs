//! Packetization of H.264 access units into RTP packets: one packet for a NAL
//! unit that fits the payload limit, FU-A fragments for a larger one.

use super::header::{RtpHeader, MAX_RTP_PAYLOAD, RTP_HEADER_SIZE};
use super::laws::{lemma_packet_headers, lemma_unit_packets_len};
use crate::annexb::{find_nal_units, lemma_nal_units_are_clean, nal_units, unit_views};
use crate::bytes::bit;
use crate::clock::wall_clock_nanos;
use vstd::prelude::*;

verus! {

/// Most bytes of a NAL unit's body that one FU-A fragment carries.
pub const FU_PAYLOAD: usize = 1398;

/// The 90 kHz RTP timestamp of a frame time in milliseconds, wrapped to 32
/// bits.
pub open spec fn rtp_timestamp(frame_time_ms: u32) -> u32 {
    ((frame_time_ms as int * 90) % 0x1_0000_0000) as u32
}

/// The header of a packet of an H.264 stream.
pub open spec fn stream_header(ssrc: u32, seq: int, ts: u32, marker: bool) -> RtpHeader {
    RtpHeader {
        version: 2,
        padding: false,
        extension: false,
        csrc_count: 0,
        marker,
        payload_type: 96,
        sequence: (seq % 0x1_0000) as u16,
        timestamp: ts,
        ssrc,
    }
}

/// The FU indicator of the fragments of a NAL unit with this header byte: its
/// upper three bits, and type 28.
pub open spec fn fu_indicator(nal_header: u8) -> u8 {
    (nal_header / 32 * 32 + 28) as u8
}

/// The FU header of one fragment: start flag, end flag, a zero bit and the
/// type of the fragmented unit.
pub open spec fn fu_header(nal_header: u8, first: bool, last: bool) -> u8 {
    (bit(first) * 128 + bit(last) * 64 + nal_header % 32) as u8
}

/// How many packets carry a NAL unit of `len` bytes.
pub open spec fn fragment_count(len: int) -> int {
    if len <= 0 {
        0
    } else if len <= 1400 {
        1
    } else {
        (len - 1 + 1397) / 1398
    }
}

/// The `k`-th packet of a NAL unit whose first packet has sequence number
/// `seq0`. The marker is set on the last packet of the last unit.
#[verifier::opaque]
pub open spec fn nal_packet(
    ssrc: u32,
    seq0: int,
    ts: u32,
    nal: Seq<u8>,
    last_nal: bool,
    k: int,
) -> Seq<u8> {
    if nal.len() <= 1400 {
        stream_header(ssrc, seq0, ts, last_nal).wire() + nal
    } else {
        let count = fragment_count(nal.len() as int);
        let lo = 1 + k * 1398;
        let hi = if lo + 1398 < nal.len() {
            lo + 1398
        } else {
            nal.len() as int
        };
        stream_header(ssrc, seq0 + k, ts, last_nal && k == count - 1).wire() + seq![
            fu_indicator(nal[0]),
            fu_header(nal[0], k == 0, k == count - 1),
        ] + nal.subrange(lo, hi)
    }
}

/// The packets of one NAL unit, in order.
pub open spec fn nal_packets(ssrc: u32, seq0: int, ts: u32, nal: Seq<u8>, last_nal: bool) -> Seq<
    Seq<u8>,
> {
    Seq::new(
        fragment_count(nal.len() as int) as nat,
        |k: int| nal_packet(ssrc, seq0, ts, nal, last_nal, k),
    )
}

/// The packets of the NAL units `nals[from..]`, the first of them with
/// sequence number `seq0`.
pub open spec fn unit_packets(ssrc: u32, seq0: int, ts: u32, nals: Seq<Seq<u8>>, from: int) -> Seq<
    Seq<u8>,
>
    decreases nals.len() - from,
{
    if from < 0 || from >= nals.len() {
        Seq::empty()
    } else {
        nal_packets(ssrc, seq0, ts, nals[from], from == nals.len() - 1) + unit_packets(
            ssrc,
            seq0 + fragment_count(nals[from].len() as int),
            ts,
            nals,
            from + 1,
        )
    }
}

/// The packets of an access unit made of `nals`.
pub open spec fn access_unit_packets(ssrc: u32, seq0: int, ts: u32, nals: Seq<Seq<u8>>) -> Seq<
    Seq<u8>,
> {
    unit_packets(ssrc, seq0, ts, nals, 0)
}

/// The contents of a list of packets.
pub open spec fn packet_views(packets: Seq<Vec<u8>>) -> Seq<Seq<u8>> {
    Seq::new(packets.len(), |k: int| packets[k]@)
}

/// What a packetizer remembers between calls.
pub struct PacketizerState {
    pub ssrc: u32,
    /// Sequence number of the next packet.
    pub sequence: u16,
    /// RTP timestamp of the access unit packetized last.
    pub timestamp: u32,
}

/// Turns H.264 access units into RTP packets of one stream.
pub struct RtpPacketizer {
    ssrc: u32,
    sequence: u16,
    timestamp: u32,
}

impl View for RtpPacketizer {
    type V = PacketizerState;

    closed spec fn view(&self) -> PacketizerState {
        PacketizerState { ssrc: self.ssrc, sequence: self.sequence, timestamp: self.timestamp }
    }
}

pub(crate) fn append_bytes(dst: &mut Vec<u8>, src: &[u8])
    ensures
        final(dst)@ == old(dst)@ + src@,
{
    dst.extend_from_slice(src);
    assert(dst@ =~= old(dst)@ + src@);
}

impl RtpPacketizer {
    /// A packetizer for a new stream, starting at sequence number 0. The
    /// stream's source identifier is taken from the wall clock: the low 32
    /// bits of its nanoseconds.
    pub fn new() -> (packetizer: Self)
        ensures
            packetizer@.sequence == 0,
            packetizer@.timestamp == 0,
    {
        Self::from_clock(wall_clock_nanos())
    }

    /// A packetizer for the stream whose source identifier is the low 32 bits
    /// of `nanos`, a reading of the wall clock in nanoseconds. It starts at
    /// sequence number 0.
    pub fn from_clock(nanos: u128) -> (packetizer: Self)
        ensures
            packetizer@ == (PacketizerState {
                ssrc: (nanos % 0x1_0000_0000) as u32,
                sequence: 0,
                timestamp: 0,
            }),
    {
        Self::with_ssrc((nanos % 0x1_0000_0000) as u32)
    }

    /// A packetizer for the stream `ssrc`, starting at sequence number 0.
    pub fn with_ssrc(ssrc: u32) -> (packetizer: Self)
        ensures
            packetizer@ == (PacketizerState { ssrc, sequence: 0, timestamp: 0 }),
    {
        RtpPacketizer { ssrc, sequence: 0, timestamp: 0 }
    }

    pub fn ssrc(&self) -> (ssrc: u32)
        ensures
            ssrc == self@.ssrc,
    {
        self.ssrc
    }

    /// Sequence number that the next packet will carry.
    pub fn sequence(&self) -> (sequence: u16)
        ensures
            sequence == self@.sequence,
    {
        self.sequence
    }

    fn next_header(&mut self, marker: bool) -> (bytes: [u8; 12])
        ensures
            bytes@ == stream_header(
                old(self)@.ssrc,
                old(self)@.sequence as int,
                old(self)@.timestamp,
                marker,
            ).wire(),
            final(self)@.ssrc == old(self)@.ssrc,
            final(self)@.timestamp == old(self)@.timestamp,
            final(self)@.sequence == (old(self)@.sequence + 1) % 0x1_0000,
    {
        let mut header = RtpHeader::new(self.ssrc);
        header.sequence = self.sequence;
        header.timestamp = self.timestamp;
        header.marker = marker;
        self.sequence = self.sequence.wrapping_add(1);
        header.serialize()
    }

    fn packetize_nal(&mut self, nal: &[u8], is_last_nal: bool) -> (packets: Vec<Vec<u8>>)
        ensures
            packet_views(packets@) == nal_packets(
                old(self)@.ssrc,
                old(self)@.sequence as int,
                old(self)@.timestamp,
                nal@,
                is_last_nal,
            ),
            final(self)@.ssrc == old(self)@.ssrc,
            final(self)@.timestamp == old(self)@.timestamp,
            final(self)@.sequence == (old(self)@.sequence + packets.len()) % 0x1_0000,
    {
        let mut packets: Vec<Vec<u8>> = Vec::new();
        let len: usize = nal.len();
        let ghost ssrc = self.ssrc;
        let ghost seq0 = self.sequence as int;
        let ghost ts = self.timestamp;
        reveal(nal_packet);
        if len == 0 {
            assert(packet_views(packets@) =~= nal_packets(ssrc, seq0, ts, nal@, is_last_nal));
            return packets;
        }
        if len <= MAX_RTP_PAYLOAD {
            let header: [u8; 12] = self.next_header(is_last_nal);
            let mut packet: Vec<u8> = Vec::with_capacity(RTP_HEADER_SIZE + len);
            append_bytes(&mut packet, header.as_slice());
            append_bytes(&mut packet, nal);
            assert(packet@ =~= nal_packet(ssrc, seq0, ts, nal@, is_last_nal, 0));
            packets.push(packet);
            assert(packet_views(packets@) =~= nal_packets(ssrc, seq0, ts, nal@, is_last_nal));
            return packets;
        }
        let nal_header: u8 = nal[0];
        assert((nal_header & 0xe0) | 28 == nal_header / 32 * 32 + 28) by (bit_vector);
        let indicator: u8 = (nal_header & 0xe0) | 28;
        let unit_type: u8 = crate::annexb::nal_type(nal_header);
        let body: usize = len - 1;
        let count: usize = if body % FU_PAYLOAD == 0 {
            body / FU_PAYLOAD
        } else {
            body / FU_PAYLOAD + 1
        };
        let mut k: usize = 0;
        while k < count
            invariant
                len == nal.len(),
                len > 1400,
                count == fragment_count(len as int),
                k <= count,
                nal_header == nal@[0],
                indicator == fu_indicator(nal_header),
                unit_type as int == nal_header % 32,
                self@.ssrc == ssrc,
                self@.timestamp == ts,
                self@.sequence == (seq0 + k) % 0x1_0000,
                packets@.len() == k,
                forall|j: int|
                    0 <= j < k ==> (#[trigger] packets@[j])@ == nal_packet(
                        ssrc,
                        seq0,
                        ts,
                        nal@,
                        is_last_nal,
                        j,
                    ),
            decreases count - k,
        {
            let first: bool = k == 0;
            let last: bool = k == count - 1;
            let lo: usize = 1 + k * FU_PAYLOAD;
            let hi: usize = if len - lo > FU_PAYLOAD {
                lo + FU_PAYLOAD
            } else {
                len
            };
            let s: u8 = if first { 0x80 } else { 0 };
            let e: u8 = if last { 0x40 } else { 0 };
            assert((s | e | unit_type) == s + e + unit_type) by (bit_vector)
                requires
                    s == 0 || s == 0x80,
                    e == 0 || e == 0x40,
                    unit_type < 32,
            ;
            let header: [u8; 12] = self.next_header(last && is_last_nal);
            let mut packet: Vec<u8> = Vec::with_capacity(RTP_HEADER_SIZE + 2 + (hi - lo));
            append_bytes(&mut packet, header.as_slice());
            packet.push(indicator);
            packet.push(s | e | unit_type);
            append_bytes(&mut packet, vstd::slice::slice_subrange(nal, lo, hi));
            proof {
                reveal(nal_packet);
                let h = stream_header(ssrc, seq0 + k, ts, is_last_nal && last);
                let h2 = stream_header(ssrc, (seq0 + k) % 0x1_0000, ts, last && is_last_nal);
                assert(h == h2);
                assert(packet@ =~= nal_packet(ssrc, seq0, ts, nal@, is_last_nal, k as int));
            }
            packets.push(packet);
            k = k + 1;
        }
        assert(packet_views(packets@) =~= nal_packets(ssrc, seq0, ts, nal@, is_last_nal));
        packets
    }

    /// Packetizes one access unit, given in Annex-B form, for the frame time
    /// `frame_time_ms`. Returns the RTP packets in sending order.
    pub fn packetize(&mut self, h264_data: &[u8], frame_time_ms: u32) -> (packets: Vec<Vec<u8>>)
        ensures
            packet_views(packets@) == access_unit_packets(
                old(self)@.ssrc,
                old(self)@.sequence as int,
                rtp_timestamp(frame_time_ms),
                nal_units(h264_data@),
            ),
            final(self)@.ssrc == old(self)@.ssrc,
            final(self)@.timestamp == rtp_timestamp(frame_time_ms),
            final(self)@.sequence == (old(self)@.sequence + packets.len()) % 0x1_0000,
            forall|j: int|
                0 <= j < packets.len() ==> RtpHeader::spec_parse(#[trigger] packets[j]@) == Some(
                    stream_header(
                        old(self)@.ssrc,
                        old(self)@.sequence + j,
                        rtp_timestamp(frame_time_ms),
                        j == packets.len() - 1,
                    ),
                ),
    {
        let mut packets: Vec<Vec<u8>> = Vec::new();
        self.timestamp = ((frame_time_ms as u64 * 90000 / 1000) % 0x1_0000_0000) as u32;
        let units: Vec<&[u8]> = find_nal_units(h264_data);
        let n: usize = units.len();
        let ghost ssrc = self.ssrc;
        let ghost seq0 = self.sequence as int;
        let ghost ts = self.timestamp;
        let ghost nals = nal_units(h264_data@);
        let ghost mut sent: int = 0;
        let mut i: usize = 0;
        while i < n
            invariant
                i <= n,
                n == units.len(),
                unit_views(units@) == nals,
                self@.ssrc == ssrc,
                self@.timestamp == ts,
                sent == packets@.len(),
                self@.sequence == (seq0 + sent) % 0x1_0000,
                access_unit_packets(ssrc, seq0, ts, nals) == packet_views(packets@) + unit_packets(
                    ssrc,
                    seq0 + sent,
                    ts,
                    nals,
                    i as int,
                ),
            decreases n - i,
        {
            let is_last: bool = i == n - 1;
            let ghost before = packets@;
            let ghost seq_now = self.sequence as int;
            let mut nal_packets_vec: Vec<Vec<u8>> = self.packetize_nal(units[i], is_last);
            let ghost added = nal_packets_vec@;
            proof {
                assert(nals[i as int] == units@[i as int]@);
                lemma_packets_ignore_wrap(ssrc, seq0 + sent, seq_now, ts, nals[i as int], is_last);
            }
            packets.append(&mut nal_packets_vec);
            proof {
                assert(packet_views(packets@) =~= packet_views(before) + packet_views(added));
                sent = sent + added.len();
            }
            i = i + 1;
        }
        proof {
            lemma_nal_units_are_clean(h264_data@);
            lemma_unit_packets_len(ssrc, seq0, ts, nals, 0);
            assert(packet_views(packets@) =~= access_unit_packets(ssrc, seq0, ts, nals));
            assert forall|j: int| 0 <= j < packets.len() implies RtpHeader::spec_parse(
                #[trigger] packets[j]@,
            ) == Some(stream_header(ssrc, seq0 + j, ts, j == packets.len() - 1)) by {
                lemma_packet_headers(ssrc, seq0, ts, nals, 0, j);
                assert(packets[j]@ == packet_views(packets@)[j]);
            }
        }
        packets
    }
}

impl Default for RtpPacketizer {
    fn default() -> (packetizer: Self)
        ensures
            packetizer@.sequence == 0,
            packetizer@.timestamp == 0,
    {
        Self::new()
    }
}

/// The packets of a NAL unit depend on the first sequence number only
/// through its value modulo 2^16.
pub proof fn lemma_packets_ignore_wrap(
    ssrc: u32,
    seq_a: int,
    seq_b: int,
    ts: u32,
    nal: Seq<u8>,
    last_nal: bool,
)
    requires
        seq_a % 0x1_0000 == seq_b % 0x1_0000,
    ensures
        nal_packets(ssrc, seq_a, ts, nal, last_nal) == nal_packets(ssrc, seq_b, ts, nal, last_nal),
{
    reveal(nal_packet);
    assert forall|k: int| 0 <= k < fragment_count(nal.len() as int) implies nal_packet(
        ssrc,
        seq_a,
        ts,
        nal,
        last_nal,
        k,
    ) == nal_packet(ssrc, seq_b, ts, nal, last_nal, k) by {
        assert((seq_a + k) % 0x1_0000 == (seq_b + k) % 0x1_0000);
        assert(stream_header(ssrc, seq_a + k, ts, last_nal && k == fragment_count(nal.len() as int) - 1)
            == stream_header(ssrc, seq_b + k, ts, last_nal && k == fragment_count(nal.len() as int) - 1));
    }
    assert(nal_packets(ssrc, seq_a, ts, nal, last_nal) =~= nal_packets(
        ssrc,
        seq_b,
        ts,
        nal,
        last_nal,
    ));
}

} // verus!
