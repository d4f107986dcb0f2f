//! H.264 encoding of RGB frames, with a keyframe at regular intervals.

use crate::annexb::{has_keyframe_nal, is_h264_keyframe};
use crate::codec::codec_error_text;
use crate::color::{write_yuv420, yuv420, yuv420_len};
use crate::types::BroadcastError;
use vstd::prelude::*;

verus! {

/// `openh264::encoder::Encoder`, the codec's encoder. Nothing is known of
/// its contents.
#[verifier::external_type_specification]
#[verifier::external_body]
pub struct ExEncoder(openh264::encoder::Encoder);

/// Frames from one forced keyframe to the next: two seconds of frames, and
/// thirty frames at least.
pub open spec fn keyframe_interval_of(fps: u32) -> int {
    if 2 * fps > 30 {
        2 * fps
    } else {
        30
    }
}

pub fn keyframe_interval(fps: u32) -> (interval: u64)
    ensures
        interval == keyframe_interval_of(fps),
{
    let twice: u64 = 2 * (fps as u64);
    if twice > 30 {
        twice
    } else {
        30
    }
}

/// The frame with this number, counted from 0, is to be a keyframe by the
/// interval alone. (The first frame of an encoder is one anyway.)
pub open spec fn is_keyframe_due(frame_count: u64, fps: u32) -> bool {
    frame_count > 0 && frame_count as int % keyframe_interval_of(fps) == 0
}

/// A bitrate in bit/s, given in kbit/s. `None` exactly if 32 bits do not
/// hold it.
pub fn bitrate_bps(bitrate_kbps: u32) -> (bps: Option<u32>)
    ensures
        bps is Some <==> bitrate_kbps * 1000 <= u32::MAX,
        bps matches Some(b) ==> b == bitrate_kbps * 1000,
{
    bitrate_kbps.checked_mul(1000)
}

/// Tells whether the frame with this number, counted from 0, is to be a
/// keyframe by the interval.
pub fn keyframe_due(frame_count: u64, fps: u32) -> (due: bool)
    ensures
        due == is_keyframe_due(frame_count, fps),
{
    frame_count > 0 && frame_count % keyframe_interval(fps) == 0
}

/// Calls `Encoder::encode` on the three planes of a YUV 4:2:0 picture, given
/// as `YUVSlices`, and copies the bitstream out. The planes must have the
/// sizes that `YUVSlices::new` checks. Nothing is claimed of the result: it
/// depends on the frames that the encoder has seen.
#[verifier::external_body]
fn encode_planes(
    encoder: &mut openh264::encoder::Encoder,
    y: &[u8],
    u: &[u8],
    v: &[u8],
    width: usize,
    height: usize,
    chroma_stride: usize,
) -> (bitstream: Result<Vec<u8>, openh264::Error>)
    requires
        chroma_stride >= width / 2,
        y.len() == height * width,
        u.len() == (height / 2) * chroma_stride,
        v.len() == (height / 2) * chroma_stride,
{
    let source = openh264::formats::YUVSlices::new(
        (y, u, v),
        (width, height),
        (width, chroma_stride, chroma_stride),
    );
    encoder.encode(&source).map(|bitstream| bitstream.to_vec())
}

/// Calls `Encoder::force_intra_frame`: the next frame encoded is to be a
/// keyframe.
#[verifier::external_body]
fn request_keyframe(encoder: &mut openh264::encoder::Encoder) {
    encoder.force_intra_frame();
}

/// What an encoder hands out for a frame: the bitstream as it came from the
/// codec, and whether it holds a keyframe. An empty bitstream means that the
/// codec kept the frame back; it holds no keyframe.
pub fn classify_bitstream(raw: Vec<u8>) -> (out: (Vec<u8>, bool))
    ensures
        out.0@ == raw@,
        out.1 == has_keyframe_nal(raw@),
{
    let keyframe: bool = is_h264_keyframe(raw.as_slice());
    (raw, keyframe)
}

/// An H.264 encoder for pictures of one size.
pub struct H264Encoder {
    encoder: openh264::encoder::Encoder,
    width: u32,
    height: u32,
    fps: u32,
    frame_count: u64,
    /// The planar YUV 4:2:0 form of the frame encoded last.
    yuv_buffer: Vec<u8>,
}

impl H264Encoder {
    /// Both sides of the picture are even and the buffer has its size.
    pub closed spec fn wf(&self) -> bool {
        &&& self.width % 2 == 0
        &&& self.height % 2 == 0
        &&& self.yuv_buffer.len() == yuv420_len(self.width as int, self.height as int)
    }

    pub closed spec fn spec_width(&self) -> u32 {
        self.width
    }

    pub closed spec fn spec_height(&self) -> u32 {
        self.height
    }

    pub closed spec fn spec_fps(&self) -> u32 {
        self.fps
    }

    /// Frames encoded so far.
    pub closed spec fn spec_frame_count(&self) -> u64 {
        self.frame_count
    }

    /// The planar YUV 4:2:0 form of the frame encoded last.
    pub closed spec fn spec_yuv(&self) -> Seq<u8> {
        self.yuv_buffer@
    }

    /// An encoder for pictures of `width` by `height` pixels at `fps` frames
    /// per second, around a codec that the caller has configured. Fails with
    /// an `EncoderError` exactly if a side of the picture is odd or the
    /// picture is too large for a buffer.
    pub fn new(encoder: openh264::encoder::Encoder, width: u32, height: u32, fps: u32) -> (made:
        Result<Self, BroadcastError>)
        ensures
            made is Ok <==> width % 2 == 0 && height % 2 == 0 && yuv420_len(
                width as int,
                height as int,
            ) <= usize::MAX,
            made matches Ok(e) ==> e.wf() && e.spec_width() == width && e.spec_height() == height
                && e.spec_fps() == fps && e.spec_frame_count() == 0,
            made matches Err(e) ==> e is EncoderError,
    {
        if width % 2 != 0 || height % 2 != 0 {
            return Err(
                BroadcastError::EncoderError(
                    String::from_str("Failed to create encoder: picture sides must be even"),
                ),
            );
        }
        assert(0 <= width * height <= 0xffff_fffe_0000_0001) by (nonlinear_arith)
            requires
                0 <= width <= 0xffff_ffff,
                0 <= height <= 0xffff_ffff,
        ;
        let y_size: u128 = (width as u64 * height as u64) as u128;
        let total: u128 = y_size + 2 * (y_size / 4);
        if total > usize::MAX as u128 {
            return Err(
                BroadcastError::EncoderError(
                    String::from_str("Failed to create encoder: picture too large"),
                ),
            );
        }
        let yuv_buffer: Vec<u8> = vec![0u8; total as usize];
        Ok(H264Encoder { encoder, width, height, fps, frame_count: 0, yuv_buffer })
    }

    pub fn frame_count(&self) -> (count: u64)
        ensures
            count == self.spec_frame_count(),
    {
        self.frame_count
    }

    /// Encodes one RGB frame. Returns the bitstream in Annex-B form and
    /// whether it holds a keyframe; the bitstream is empty where the codec
    /// kept the frame back. Every `keyframe_interval(fps)` frames the codec
    /// is asked for a keyframe.
    pub fn encode(&mut self, rgb_data: &[u8]) -> (out: Result<(Vec<u8>, bool), BroadcastError>)
        requires
            old(self).wf(),
        ensures
            final(self).wf(),
            final(self).spec_width() == old(self).spec_width(),
            final(self).spec_height() == old(self).spec_height(),
            final(self).spec_fps() == old(self).spec_fps(),
            final(self).spec_yuv() == yuv420(
                old(self).spec_yuv(),
                rgb_data@,
                old(self).spec_width() as int,
                old(self).spec_height() as int,
            ),
            match out {
                Ok((bitstream, keyframe)) => {
                    &&& keyframe == has_keyframe_nal(bitstream@)
                    &&& final(self).spec_frame_count() as int == (old(self).spec_frame_count() + 1)
                        % 0x1_0000_0000_0000_0000
                },
                Err(e) => {
                    &&& e is EncoderError
                    &&& final(self).spec_frame_count() == old(self).spec_frame_count()
                },
            },
    {
        let width: usize = self.width as usize;
        let height: usize = self.height as usize;
        if keyframe_due(self.frame_count, self.fps) {
            request_keyframe(&mut self.encoder);
        }
        write_yuv420(rgb_data, width, height, &mut self.yuv_buffer);
        assert(0 <= width * height && (height / 2) * (width / 2) == width * height / 4)
            by (nonlinear_arith)
            requires
                width % 2 == 0,
                height % 2 == 0,
                0 <= width,
                0 <= height,
        ;
        let y_size: usize = width * height;
        let uv_size: usize = y_size / 4;
        let y: &[u8] = vstd::slice::slice_subrange(self.yuv_buffer.as_slice(), 0, y_size);
        let u: &[u8] = vstd::slice::slice_subrange(
            self.yuv_buffer.as_slice(),
            y_size,
            y_size + uv_size,
        );
        let v: &[u8] = vstd::slice::slice_subrange(
            self.yuv_buffer.as_slice(),
            y_size + uv_size,
            y_size + 2 * uv_size,
        );
        match encode_planes(&mut self.encoder, y, u, v, width, height, width / 2) {
            Ok(raw) => {
                self.frame_count = self.frame_count.wrapping_add(1);
                Ok(classify_bitstream(raw))
            },
            Err(error) => Err(
                BroadcastError::EncoderError(
                    String::from_str("Encode failed: ").concat(codec_error_text(&error).as_str()),
                ),
            ),
        }
    }
}

} // verus!
