//! Reassembly of H.264 access units from RTP packets.
//!
//! The depacketizer takes packets one by one. It collects the NAL units of
//! the access unit in progress in Annex-B form, each behind a four-byte start
//! code, and hands the access unit out when a packet with the marker bit
//! arrives. Nothing lost is asked for again: a gap in the sequence numbers
//! gives up the fragmented NAL unit in progress, and a new timestamp gives up
//! what was collected of the access unit before.

use super::header::{RtpHeader, RTP_HEADER_SIZE, RTP_PAYLOAD_TYPE_H264};
use crate::bytes::{from_be16, u16_from_be};
use super::packetizer::append_bytes;
use crate::annexb::start_code;
use vstd::prelude::*;

verus! {

/// What a depacketizer remembers between packets.
pub struct DepacketizerState {
    /// Sequence number of the packet accepted last.
    pub last_seq: Option<u16>,
    /// Timestamp of the access unit in progress.
    pub cur_ts: Option<u32>,
    /// The NAL units collected of the access unit in progress.
    pub cur_frame: Seq<u8>,
    /// The fragmented NAL unit in progress: its header byte and the fragments
    /// so far.
    pub fu_buf: Seq<u8>,
    /// A first fragment was seen and no gap since.
    pub fu_active: bool,
}

/// The state of a depacketizer that has seen no packet.
pub open spec fn fresh_state() -> DepacketizerState {
    DepacketizerState {
        last_seq: None,
        cur_ts: None,
        cur_frame: Seq::empty(),
        fu_buf: Seq::empty(),
        fu_active: false,
    }
}

/// A packet is taken: it has a version 2 header without contributing
/// sources, the H.264 payload type and at least one payload byte.
pub open spec fn accepts(packet: Seq<u8>) -> bool {
    match RtpHeader::spec_parse(packet) {
        Some(h) => h.payload_type == 96 && h.csrc_count == 0 && packet.len() > 12,
        None => false,
    }
}

/// `seq` does not follow the sequence number accepted last.
pub open spec fn is_gap(s: DepacketizerState, seq: u16) -> bool {
    match s.last_seq {
        Some(prev) => seq as int != (prev as int + 1) % 0x1_0000,
        None => false,
    }
}

/// The state once the sequence number and the timestamp of an accepted
/// packet are noted: a gap gives up the fragmented unit in progress, a new
/// timestamp gives up the access unit in progress.
pub open spec fn note_header(s: DepacketizerState, seq: u16, ts: u32) -> DepacketizerState {
    let gap = is_gap(s, seq);
    let same_unit = s.cur_ts == Some(ts);
    DepacketizerState {
        last_seq: Some(seq),
        cur_ts: Some(ts),
        cur_frame: if same_unit {
            s.cur_frame
        } else {
            Seq::empty()
        },
        fu_buf: if gap {
            Seq::empty()
        } else {
            s.fu_buf
        },
        fu_active: s.fu_active && !gap,
    }
}

/// The Annex-B form of the NAL units that a STAP-A payload aggregates,
/// read from `pos` on: each entry is a 16-bit big-endian size and that many
/// bytes. Reading stops at an entry that the payload does not hold in full;
/// an entry of size zero adds nothing.
pub open spec fn aggregated_units(payload: Seq<u8>, pos: int) -> Seq<u8>
    decreases payload.len() - pos,
{
    if pos < 0 || pos + 2 > payload.len() {
        Seq::empty()
    } else {
        let size = from_be16(payload[pos], payload[pos + 1]) as int;
        if pos + 2 + size > payload.len() {
            Seq::empty()
        } else if size == 0 {
            aggregated_units(payload, pos + 2)
        } else {
            start_code() + payload.subrange(pos + 2, pos + 2 + size) + aggregated_units(
                payload,
                pos + 2 + size,
            )
        }
    }
}

/// The state once a FU-A payload (of two bytes or more) is taken in.
pub open spec fn absorb_fragment(s: DepacketizerState, payload: Seq<u8>) -> DepacketizerState {
    let starts = payload[1] / 128 == 1;
    let ends = payload[1] / 64 % 2 == 1;
    let unit_header = (payload[0] / 32 * 32 + payload[1] % 32) as u8;
    let active = starts || s.fu_active;
    let buf = if starts {
        seq![unit_header] + payload.subrange(2, payload.len() as int)
    } else if s.fu_active {
        s.fu_buf + payload.subrange(2, payload.len() as int)
    } else {
        s.fu_buf
    };
    if ends && active {
        DepacketizerState {
            cur_frame: s.cur_frame + start_code() + buf,
            fu_buf: Seq::empty(),
            fu_active: false,
            ..s
        }
    } else {
        DepacketizerState { fu_buf: buf, fu_active: active, ..s }
    }
}

/// The state once a payload is taken in, by the type in the low five bits of
/// its first byte: 1 to 23 a whole NAL unit, 24 an aggregate (STAP-A), 28 a
/// fragment (FU-A). `None` where the payload is dropped: any other type, or
/// a fragment of less than two bytes.
pub open spec fn absorb(s: DepacketizerState, payload: Seq<u8>) -> Option<DepacketizerState> {
    let t = payload[0] as int % 32;
    if 1 <= t <= 23 {
        Some(DepacketizerState { cur_frame: s.cur_frame + start_code() + payload, ..s })
    } else if t == 24 {
        Some(DepacketizerState { cur_frame: s.cur_frame + aggregated_units(payload, 1), ..s })
    } else if t == 28 && payload.len() >= 2 {
        Some(absorb_fragment(s, payload))
    } else {
        None
    }
}

/// One step of the depacketizer: the state after `packet`, and the access
/// unit that the packet completes, if it completes one.
#[verifier::opaque]
pub open spec fn step(s: DepacketizerState, packet: Seq<u8>) -> (
    DepacketizerState,
    Option<Seq<u8>>,
) {
    if !accepts(packet) {
        (s, None)
    } else {
        let h = RtpHeader::spec_parse(packet).unwrap();
        let noted = note_header(s, h.sequence, h.timestamp);
        match absorb(noted, packet.subrange(12, packet.len() as int)) {
            None => (noted, None),
            Some(taken) => if h.marker && taken.cur_frame.len() > 0 {
                (DepacketizerState { cur_frame: Seq::empty(), ..taken }, Some(taken.cur_frame))
            } else {
                (taken, None)
            },
        }
    }
}

/// The contents of an access unit handed out, if one is.
pub open spec fn frame_view(frame: Option<Vec<u8>>) -> Option<Seq<u8>> {
    match frame {
        Some(bytes) => Some(bytes@),
        None => None,
    }
}

/// Reassembles H.264 access units from the RTP packets of one stream.
pub struct RtpDepacketizer {
    last_seq: Option<u16>,
    cur_ts: Option<u32>,
    cur_frame: Vec<u8>,
    fu_buf: Vec<u8>,
    fu_active: bool,
}

impl View for RtpDepacketizer {
    type V = DepacketizerState;

    closed spec fn view(&self) -> DepacketizerState {
        DepacketizerState {
            last_seq: self.last_seq,
            cur_ts: self.cur_ts,
            cur_frame: self.cur_frame@,
            fu_buf: self.fu_buf@,
            fu_active: self.fu_active,
        }
    }
}

fn append_start_code(frame: &mut Vec<u8>)
    ensures
        final(frame)@ == old(frame)@ + start_code(),
{
    frame.push(0);
    frame.push(0);
    frame.push(0);
    frame.push(1);
    assert(frame@ =~= old(frame)@ + start_code());
}

/// Appends the NAL units of a STAP-A payload to `frame` in Annex-B form.
fn append_aggregate(frame: &mut Vec<u8>, payload: &[u8])
    requires
        payload.len() >= 1,
    ensures
        final(frame)@ == old(frame)@ + aggregated_units(payload@, 1),
{
    let n: usize = payload.len();
    let mut pos: usize = 1;
    while n - pos >= 2
        invariant
            n == payload.len(),
            1 <= pos <= n,
            frame@ + aggregated_units(payload@, pos as int) == old(frame)@ + aggregated_units(
                payload@,
                1,
            ),
        decreases n - pos,
    {
        let size: usize = u16_from_be(payload[pos], payload[pos + 1]) as usize;
        if size > n - pos - 2 {
            assert(aggregated_units(payload@, pos as int) == Seq::<u8>::empty());
            assert(frame@ + Seq::<u8>::empty() =~= frame@);
            return ;
        }
        if size > 0 {
            let ghost before = frame@;
            append_start_code(frame);
            append_bytes(frame, vstd::slice::slice_subrange(payload, pos + 2, pos + 2 + size));
            assert(frame@ + aggregated_units(payload@, pos + 2 + size) =~= before
                + aggregated_units(payload@, pos as int));
        }
        pos = pos + 2 + size;
    }
    assert(aggregated_units(payload@, pos as int) == Seq::<u8>::empty());
    assert(frame@ + Seq::<u8>::empty() =~= frame@);
}

impl RtpDepacketizer {
    pub fn new() -> (depacketizer: Self)
        ensures
            depacketizer@ == fresh_state(),
    {
        RtpDepacketizer {
            last_seq: None,
            cur_ts: None,
            cur_frame: Vec::new(),
            fu_buf: Vec::new(),
            fu_active: false,
        }
    }

    /// Notes sequence number and timestamp of an accepted packet.
    fn note(&mut self, seq: u16, ts: u32)
        ensures
            final(self)@ == note_header(old(self)@, seq, ts),
    {
        match self.last_seq {
            Some(prev) => {
                if seq != prev.wrapping_add(1) {
                    self.fu_buf.clear();
                    self.fu_active = false;
                }
            },
            None => {},
        }
        self.last_seq = Some(seq);
        let same_unit: bool = match self.cur_ts {
            Some(cur) => cur == ts,
            None => false,
        };
        if !same_unit {
            self.cur_frame.clear();
            self.cur_ts = Some(ts);
        }
        assert(self@.fu_buf =~= note_header(old(self)@, seq, ts).fu_buf);
        assert(self@.cur_frame =~= note_header(old(self)@, seq, ts).cur_frame);
    }

    /// Takes in a FU-A payload.
    fn take_fragment(&mut self, payload: &[u8])
        requires
            payload.len() >= 2,
        ensures
            final(self)@ == absorb_fragment(old(self)@, payload@),
    {
        let indicator: u8 = payload[0];
        let fu: u8 = payload[1];
        assert(((fu >> 7) & 1 == 1) == (fu / 128 == 1) && ((fu >> 6) & 1 == 1) == (fu / 64 % 2 == 1)
            && (indicator & 0xe0) | (fu & 0x1f) == indicator / 32 * 32 + fu % 32) by (bit_vector);
        let starts: bool = (fu >> 7) & 1 == 1;
        let ends: bool = (fu >> 6) & 1 == 1;
        if starts {
            self.fu_buf.clear();
            self.fu_buf.push((indicator & 0xe0) | (fu & 0x1f));
            self.fu_active = true;
        }
        if self.fu_active {
            append_bytes(&mut self.fu_buf, vstd::slice::slice_subrange(payload, 2, payload.len()));
        }
        let ghost buf = self.fu_buf@;
        if ends && self.fu_active {
            append_start_code(&mut self.cur_frame);
            append_bytes(&mut self.cur_frame, self.fu_buf.as_slice());
            self.fu_buf.clear();
            self.fu_active = false;
        }
        proof {
            let want = absorb_fragment(old(self)@, payload@);
            assert(self@.fu_buf =~= want.fu_buf);
            assert(self@.cur_frame =~= want.cur_frame);
        }
    }

    /// Takes one RTP packet. Returns the access unit that the packet
    /// completes, in Annex-B form, if it completes one.
    pub fn depacketize(&mut self, rtp_data: &[u8]) -> (frame: Option<Vec<u8>>)
        ensures
            (final(self)@, frame_view(frame)) == step(old(self)@, rtp_data@),
    {
        reveal(step);
        let header: RtpHeader = match RtpHeader::parse(rtp_data) {
            Some(h) => h,
            None => {
                return None;
            },
        };
        if header.payload_type != RTP_PAYLOAD_TYPE_H264 || header.csrc_count != 0
            || rtp_data.len() <= RTP_HEADER_SIZE
        {
            return None;
        }
        let payload: &[u8] = vstd::slice::slice_subrange(
            rtp_data,
            RTP_HEADER_SIZE,
            rtp_data.len(),
        );
        self.note(header.sequence, header.timestamp);
        let ghost noted = self@;
        let t: u8 = crate::annexb::nal_type(payload[0]);
        if 1 <= t && t <= 23 {
            append_start_code(&mut self.cur_frame);
            append_bytes(&mut self.cur_frame, payload);
        } else if t == 24 {
            append_aggregate(&mut self.cur_frame, payload);
        } else if t == 28 && payload.len() >= 2 {
            self.take_fragment(payload);
        } else {
            return None;
        }
        proof {
            let taken = absorb(noted, payload@).unwrap();
            assert(self@.cur_frame =~= taken.cur_frame);
            assert(self@ == taken);
        }
        if header.marker && self.cur_frame.len() > 0 {
            let mut frame: Vec<u8> = Vec::new();
            core::mem::swap(&mut frame, &mut self.cur_frame);
            return Some(frame);
        }
        None
    }
}

impl Default for RtpDepacketizer {
    fn default() -> (depacketizer: Self)
        ensures
            depacketizer@ == fresh_state(),
    {
        Self::new()
    }
}

} // verus!
