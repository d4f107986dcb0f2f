//! The two ends of a broadcast. The teacher turns captured frames into RTP
//! packets; the student turns RTP packets into frames for the window and
//! recovers from loss by waiting for a keyframe. Capture, sockets, threads
//! and sleeping are the caller's part.

use crate::annexb::{has_keyframe_nal, is_h264_keyframe, nal_units};
use crate::color::{argb_len, argb_pixel, rgba_to_argb, yuv420};
use crate::decoder::{DecodedFrame, H264Decoder};
use crate::discovery::elapsed_ms;
use crate::encoder::H264Encoder;
use crate::render::FrameBuffer;
use crate::rtp::depacketizer::{step, RtpDepacketizer};
use crate::rtp::packetizer::{access_unit_packets, packet_views, rtp_timestamp, RtpPacketizer};
use crate::types::BroadcastError;
use vstd::prelude::*;

verus! {

/// Pixels of a picture of 1280 by 720.
pub const PIXELS_720P: u64 = 921600;

/// Pixels of a picture of 1920 by 1080.
pub const PIXELS_1080P: u64 = 2073600;

/// The bitrate, in kbit/s, from which the bitrate of a picture of `pixels`
/// pixels is scaled.
pub open spec fn base_bitrate_kbps(pixels: int) -> int {
    if pixels <= 921600 {
        1500
    } else if pixels <= 2073600 {
        3000
    } else {
        5000
    }
}

/// Sixty times the factor by which the quality knob scales the bitrate:
/// `1 - (quality - 20) / 60`, and 0.3 at least.
pub open spec fn quality_sixtieths(quality: u32) -> int {
    if 80 - quality > 18 {
        80 - quality
    } else {
        18
    }
}

/// The target bitrate in kbit/s: the base bitrate of the picture size,
/// times `fps / 30`, times the quality factor, rounded down, and no more than
/// 32 bits hold.
pub open spec fn bitrate_kbps(width: u32, height: u32, fps: u32, quality: u32) -> int {
    let exact = base_bitrate_kbps(width * height) * fps * quality_sixtieths(quality) / 1800;
    if exact > u32::MAX {
        u32::MAX as int
    } else {
        exact
    }
}

/// Gives, for picture size, frame rate and quality, the encoder's
/// target bitrate in kbit/s.
pub fn calculate_bitrate(width: u32, height: u32, fps: u32, quality: u32) -> (kbps: u32)
    ensures
        kbps == bitrate_kbps(width, height, fps, quality),
{
    assert(0 <= width * height <= u64::MAX) by (nonlinear_arith)
        requires
            0 <= width <= u32::MAX,
            0 <= height <= u32::MAX,
    ;
    let pixels: u64 = width as u64 * height as u64;
    let base: u64 = if pixels <= PIXELS_720P {
        1500
    } else if pixels <= PIXELS_1080P {
        3000
    } else {
        5000
    };
    let sixtieths: u64 = if quality < 62 {
        80 - quality as u64
    } else {
        18
    };
    assert(0 <= base * fps * sixtieths <= 5000 * 0xffff_ffff * 80) by (nonlinear_arith)
        requires
            0 <= base <= 5000,
            0 <= fps <= 0xffff_ffff,
            0 <= sixtieths <= 80,
    ;
    assert(0 <= base * fps <= 5000 * 0xffff_ffff) by (nonlinear_arith)
        requires
            0 <= base <= 5000,
            0 <= fps <= 0xffff_ffff,
    ;
    let exact: u64 = base * fps as u64 * sixtieths / 1800;
    if exact > u32::MAX as u64 {
        u32::MAX
    } else {
        exact as u32
    }
}

/// Milliseconds from one frame to the next at `fps` frames per second,
/// rounded down. A rate of zero counts as one frame per second.
pub open spec fn frame_interval_of(fps: u32) -> int {
    if fps == 0 {
        1000int
    } else {
        1000int / fps as int
    }
}

pub fn frame_interval_ms(fps: u32) -> (interval: u64)
    ensures
        interval == frame_interval_of(fps),
{
    if fps == 0 {
        1000
    } else {
        1000 / fps as u64
    }
}

/// Milliseconds between two status reports of a running teacher.
pub const STATS_INTERVAL_MS: u64 = 1000;

/// Milliseconds that are left of a frame interval once `elapsed_ms` of it
/// have passed.
pub fn remaining_ms(interval_ms: u64, elapsed_ms: u64) -> (left: u64)
    ensures
        left == if elapsed_ms < interval_ms {
            interval_ms - elapsed_ms
        } else {
            0
        },
{
    if elapsed_ms < interval_ms {
        interval_ms - elapsed_ms
    } else {
        0
    }
}

/// Limits capture to the frame rate: a capture is due once a frame interval
/// has passed since the last capture that gave a frame.
#[derive(Clone, Copy, Debug)]
pub struct CapturePacer {
    last_capture_ms: u64,
    interval_ms: u64,
}

/// A [`CapturePacer`] as a mathematical value.
pub struct PacerView {
    /// Time of the last capture that gave a frame.
    pub last_capture_ms: u64,
    pub interval_ms: u64,
}

impl View for CapturePacer {
    type V = PacerView;

    closed spec fn view(&self) -> PacerView {
        PacerView { last_capture_ms: self.last_capture_ms, interval_ms: self.interval_ms }
    }
}

impl CapturePacer {
    /// A pacer for `fps` frames per second, started at `now_ms`.
    pub fn new(fps: u32, now_ms: u64) -> (pacer: Self)
        ensures
            pacer@ == (PacerView {
                last_capture_ms: now_ms,
                interval_ms: frame_interval_of(fps) as u64,
            }),
    {
        CapturePacer { last_capture_ms: now_ms, interval_ms: frame_interval_ms(fps) }
    }

    pub fn set_fps(&mut self, fps: u32)
        ensures
            final(self)@ == (PacerView { interval_ms: frame_interval_of(fps) as u64, ..old(self)@ }),
    {
        self.interval_ms = frame_interval_ms(fps);
    }

    /// Tells whether a capture is due at `now_ms`.
    pub fn is_due(&self, now_ms: u64) -> (due: bool)
        ensures
            due == (elapsed_ms(now_ms, self@.last_capture_ms) >= self@.interval_ms),
    {
        let elapsed: u64 = if now_ms >= self.last_capture_ms {
            now_ms - self.last_capture_ms
        } else {
            0
        };
        elapsed >= self.interval_ms
    }

    /// Notes that a capture at `now_ms` gave a frame.
    pub fn mark_captured(&mut self, now_ms: u64)
        ensures
            final(self)@ == (PacerView { last_capture_ms: now_ms, ..old(self)@ }),
    {
        self.last_capture_ms = now_ms;
    }

    /// Milliseconds to wait at `now_ms` until a capture is due.
    pub fn wait_ms(&self, now_ms: u64) -> (wait: u64)
        ensures
            wait == if elapsed_ms(now_ms, self@.last_capture_ms) >= self@.interval_ms {
                0
            } else {
                self@.interval_ms - elapsed_ms(now_ms, self@.last_capture_ms)
            },
    {
        let elapsed: u64 = if now_ms >= self.last_capture_ms {
            now_ms - self.last_capture_ms
        } else {
            0
        };
        if elapsed >= self.interval_ms {
            0
        } else {
            self.interval_ms - elapsed
        }
    }
}

/// One encoded frame on its way to the network.
#[derive(Debug)]
pub struct EncodedFrame {
    /// The frame's access unit in Annex-B form; empty where the codec kept
    /// the frame back.
    pub bitstream: Vec<u8>,
    pub is_keyframe: bool,
    /// The RTP packets of the access unit, in sending order.
    pub packets: Vec<Vec<u8>>,
}

/// What a teacher has sent since its counters were read last.
#[derive(Clone, Copy, Debug, PartialEq, Eq, Structural)]
pub struct SendCounters {
    /// Frames sent.
    pub frames: u64,
    /// Bytes put on the wire.
    pub bytes: u64,
}

/// The sending end: encoder and packetizer of one stream, and its counters.
pub struct TeacherPipeline {
    encoder: H264Encoder,
    packetizer: RtpPacketizer,
    counters: SendCounters,
    frames_sent: u64,
}

impl TeacherPipeline {
    pub closed spec fn wf(&self) -> bool {
        self.encoder.wf()
    }

    pub closed spec fn encoder(&self) -> H264Encoder {
        self.encoder
    }

    pub closed spec fn packetizer(&self) -> RtpPacketizer {
        self.packetizer
    }

    /// What was sent since the counters were read last.
    pub closed spec fn counters(&self) -> SendCounters {
        self.counters
    }

    /// Frames sent since the start.
    pub closed spec fn frames_sent(&self) -> u64 {
        self.frames_sent
    }

    pub fn new(encoder: H264Encoder, packetizer: RtpPacketizer) -> (pipeline: Self)
        requires
            encoder.wf(),
        ensures
            pipeline.wf(),
            pipeline.encoder() == encoder,
            pipeline.packetizer() == packetizer,
            pipeline.counters() == (SendCounters { frames: 0, bytes: 0 }),
            pipeline.frames_sent() == 0,
    {
        TeacherPipeline {
            encoder,
            packetizer,
            counters: SendCounters { frames: 0, bytes: 0 },
            frames_sent: 0,
        }
    }

    /// Encodes a captured frame and packetizes what the codec gives for it,
    /// for the frame time `timestamp_ms`. A frame that the codec keeps back
    /// gives no packet and leaves the packetizer as it is. Whatever the codec
    /// answers, the encoder then holds the frame in YUV 4:2:0 form; it counts
    /// the frame unless the codec failed.
    pub fn process_frame(&mut self, rgb_data: &[u8], timestamp_ms: u32) -> (out: Result<
        EncodedFrame,
        BroadcastError,
    >)
        requires
            old(self).wf(),
        ensures
            final(self).wf(),
            final(self).counters() == old(self).counters(),
            final(self).frames_sent() == old(self).frames_sent(),
            final(self).encoder().spec_width() == old(self).encoder().spec_width(),
            final(self).encoder().spec_height() == old(self).encoder().spec_height(),
            final(self).encoder().spec_fps() == old(self).encoder().spec_fps(),
            final(self).encoder().spec_yuv() == yuv420(
                old(self).encoder().spec_yuv(),
                rgb_data@,
                old(self).encoder().spec_width() as int,
                old(self).encoder().spec_height() as int,
            ),
            final(self).encoder().spec_frame_count() as int == if out is Ok {
                (old(self).encoder().spec_frame_count() + 1) % 0x1_0000_0000_0000_0000
            } else {
                old(self).encoder().spec_frame_count() as int
            },
            match out {
                Ok(frame) => {
                    &&& frame.is_keyframe == has_keyframe_nal(frame.bitstream@)
                    &&& frame.bitstream@.len() == 0 ==> {
                        &&& frame.packets@.len() == 0
                        &&& final(self).packetizer() == old(self).packetizer()
                    }
                    &&& frame.bitstream@.len() > 0 ==> {
                        &&& packet_views(frame.packets@) == access_unit_packets(
                            old(self).packetizer()@.ssrc,
                            old(self).packetizer()@.sequence as int,
                            rtp_timestamp(timestamp_ms),
                            nal_units(frame.bitstream@),
                        )
                        &&& final(self).packetizer()@.ssrc == old(self).packetizer()@.ssrc
                        &&& final(self).packetizer()@.sequence == (old(self).packetizer()@.sequence
                            + frame.packets@.len()) % 0x1_0000
                    }
                },
                Err(e) => e is EncoderError && final(self).packetizer() == old(self).packetizer(),
            },
    {
        match self.encoder.encode(rgb_data) {
            Ok((bitstream, is_keyframe)) => {
                let packets: Vec<Vec<u8>> = if bitstream.len() == 0 {
                    Vec::new()
                } else {
                    self.packetizer.packetize(bitstream.as_slice(), timestamp_ms)
                };
                Ok(EncodedFrame { bitstream, is_keyframe, packets })
            },
            Err(error) => Err(error),
        }
    }

    /// Notes that the packets of one frame went out, `bytes` bytes in all.
    pub fn record_sent(&mut self, bytes: usize)
        requires
            old(self).wf(),
        ensures
            final(self).wf(),
            final(self).encoder() == old(self).encoder(),
            final(self).packetizer() == old(self).packetizer(),
            final(self).frames_sent() == if old(self).frames_sent() == u64::MAX {
                u64::MAX
            } else {
                (old(self).frames_sent() + 1) as u64
            },
            final(self).counters().frames == if old(self).counters().frames == u64::MAX {
                u64::MAX
            } else {
                (old(self).counters().frames + 1) as u64
            },
            final(self).counters().bytes == if old(self).counters().bytes + bytes > u64::MAX {
                u64::MAX
            } else {
                (old(self).counters().bytes + bytes) as u64
            },
    {
        self.frames_sent = self.frames_sent.saturating_add(1);
        self.counters = SendCounters {
            frames: self.counters.frames.saturating_add(1),
            bytes: self.counters.bytes.saturating_add(bytes as u64),
        };
    }

    pub fn frame_count(&self) -> (count: u64)
        ensures
            count == self.frames_sent(),
    {
        self.frames_sent
    }

    /// Hands out the counters and sets them to zero.
    pub fn take_counters(&mut self) -> (counters: SendCounters)
        requires
            old(self).wf(),
        ensures
            final(self).wf(),
            counters == old(self).counters(),
            final(self).counters() == (SendCounters { frames: 0, bytes: 0 }),
            final(self).encoder() == old(self).encoder(),
            final(self).packetizer() == old(self).packetizer(),
            final(self).frames_sent() == old(self).frames_sent(),
    {
        let counters: SendCounters = self.counters;
        self.counters = SendCounters { frames: 0, bytes: 0 };
        counters
    }
}

/// Whether the receiving end decodes or waits for a keyframe.
#[derive(Clone, Copy, Debug, PartialEq, Eq, Structural)]
pub enum ReceiverState {
    /// Access units without a keyframe are thrown away.
    WaitingKeyframe,
    /// Every access unit is decoded.
    Decoding,
}

/// An access unit is decoded in this state: any while decoding, one with a
/// keyframe while waiting for a keyframe.
pub open spec fn admits(state: ReceiverState, access_unit: Seq<u8>) -> bool {
    state == ReceiverState::Decoding || has_keyframe_nal(access_unit)
}

/// What became of an access unit at the receiving end.
#[derive(Debug)]
pub enum StudentEvent {
    /// The access unit was thrown away: no keyframe was seen yet.
    Skipped,
    /// The decoder took the access unit and has no picture yet.
    Pending,
    /// A decoded picture.
    Frame(DecodedFrame),
    /// The decoder failed; the receiver waits for the next keyframe.
    DecodeFailed(BroadcastError),
}

/// The state of the receiving end after a decoder has answered for an
/// access unit that was admitted: it decodes on, unless the decoder failed.
pub open spec fn state_after(failed: bool) -> ReceiverState {
    if failed {
        ReceiverState::WaitingKeyframe
    } else {
        ReceiverState::Decoding
    }
}

/// The frame for the window that a decoded frame makes: its pixels as
/// packed ARGB.
pub fn frame_for_window(frame: &DecodedFrame) -> (buffer: FrameBuffer)
    ensures
        buffer.width == frame.width,
        buffer.height == frame.height,
        buffer.data@ == Seq::new(
            argb_len(frame.rgba_data.len() as int, frame.width as int, frame.height as int) as nat,
            |i: int|
                argb_pixel(
                    frame.rgba_data@[4 * i],
                    frame.rgba_data@[4 * i + 1],
                    frame.rgba_data@[4 * i + 2],
                ),
        ),
{
    FrameBuffer {
        data: rgba_to_argb(frame.rgba_data.as_slice(), frame.width, frame.height),
        width: frame.width,
        height: frame.height,
    }
}

/// What the receiving end does with the answer of the decoder for an access
/// unit that it admitted: the state afterwards and the event.
pub fn resolve(answer: Result<Option<DecodedFrame>, BroadcastError>) -> (out: (
    ReceiverState,
    StudentEvent,
))
    ensures
        out.0 == state_after(answer is Err),
        match answer {
            Ok(Some(frame)) => out.1 == StudentEvent::Frame(frame),
            Ok(None) => out.1 is Pending,
            Err(error) => out.1 == StudentEvent::DecodeFailed(error),
        },
{
    match answer {
        Ok(Some(frame)) => (ReceiverState::Decoding, StudentEvent::Frame(frame)),
        Ok(None) => (ReceiverState::Decoding, StudentEvent::Pending),
        Err(error) => (ReceiverState::WaitingKeyframe, StudentEvent::DecodeFailed(error)),
    }
}

/// The receiving end: depacketizer and decoder of one stream, and whether
/// it waits for a keyframe.
pub struct StudentPipeline {
    depacketizer: RtpDepacketizer,
    decoder: H264Decoder,
    state: ReceiverState,
}

impl StudentPipeline {
    pub closed spec fn state(&self) -> ReceiverState {
        self.state
    }

    pub closed spec fn depacketizer(&self) -> RtpDepacketizer {
        self.depacketizer
    }

    pub closed spec fn decoder(&self) -> H264Decoder {
        self.decoder
    }

    /// A receiving end that has seen no packet and waits for a keyframe.
    pub fn new(decoder: H264Decoder) -> (pipeline: Self)
        ensures
            pipeline.state() == ReceiverState::WaitingKeyframe,
            pipeline.depacketizer()@ == crate::rtp::depacketizer::fresh_state(),
            pipeline.decoder() == decoder,
    {
        StudentPipeline {
            depacketizer: RtpDepacketizer::new(),
            decoder,
            state: ReceiverState::WaitingKeyframe,
        }
    }

    pub fn is_waiting_for_keyframe(&self) -> (waiting: bool)
        ensures
            waiting == (self.state() == ReceiverState::WaitingKeyframe),
    {
        self.state == ReceiverState::WaitingKeyframe
    }

    /// Takes one access unit. While the receiver waits for a keyframe an
    /// access unit without one is skipped and the decoder does not see it.
    /// Any other is decoded: a decoder that fails sends the receiver back to
    /// waiting, any other answer lets it decode on.
    pub fn handle_access_unit(&mut self, access_unit: &[u8]) -> (event: StudentEvent)
        ensures
            final(self).depacketizer() == old(self).depacketizer(),
            !admits(old(self).state(), access_unit@) ==> event is Skipped && final(self).state()
                == old(self).state() && final(self).decoder() == old(self).decoder(),
            admits(old(self).state(), access_unit@) ==> !(event is Skipped) && final(self).state()
                == state_after(event is DecodeFailed),
            event matches StudentEvent::Frame(frame) ==> frame.wf(),
            final(self).decoder().spec_frame_count() as int == if event is Frame {
                (old(self).decoder().spec_frame_count() + 1) % 0x1_0000_0000_0000_0000
            } else {
                old(self).decoder().spec_frame_count() as int
            },
    {
        if self.state == ReceiverState::WaitingKeyframe && !is_h264_keyframe(access_unit) {
            return StudentEvent::Skipped;
        }
        let answer: Result<Option<DecodedFrame>, BroadcastError> = self.decoder.decode(access_unit);
        let (state, event) = resolve(answer);
        self.state = state;
        event
    }

    /// Takes one datagram of the stream. `None` where the datagram completes
    /// no access unit; else what became of the access unit.
    pub fn handle_packet(&mut self, datagram: &[u8]) -> (event: Option<StudentEvent>)
        ensures
            final(self).depacketizer()@ == step(old(self).depacketizer()@, datagram@).0,
            event is Some <==> step(old(self).depacketizer()@, datagram@).1 is Some,
            match step(old(self).depacketizer()@, datagram@).1 {
                None => {
                    &&& final(self).state() == old(self).state()
                    &&& final(self).decoder() == old(self).decoder()
                },
                Some(access_unit) => event matches Some(e) && if admits(
                    old(self).state(),
                    access_unit,
                ) {
                    !(e is Skipped) && final(self).state() == state_after(e is DecodeFailed)
                } else {
                    &&& e is Skipped
                    &&& final(self).state() == old(self).state()
                    &&& final(self).decoder() == old(self).decoder()
                },
            },
    {
        match self.depacketizer.depacketize(datagram) {
            Some(access_unit) => Some(self.handle_access_unit(access_unit.as_slice())),
            None => None,
        }
    }
}

} // verus!
