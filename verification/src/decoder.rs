//! H.264 decoding to RGBA frames.

use crate::codec::{begins_with, codec_error_text};
use crate::types::BroadcastError;
use openh264::formats::YUVSource;
use vstd::prelude::*;

verus! {

/// `openh264::decoder::Decoder`, the codec's decoder. Nothing is known of
/// its contents.
#[verifier::external_type_specification]
#[verifier::external_body]
pub struct ExDecoder(openh264::decoder::Decoder);

/// A decoded picture: four bytes (red, green, blue, alpha) for each pixel,
/// row by row.
#[derive(Debug)]
pub struct DecodedFrame {
    pub rgba_data: Vec<u8>,
    pub width: u32,
    pub height: u32,
}

impl DecodedFrame {
    /// The frame holds four bytes for each of its pixels.
    pub open spec fn wf(&self) -> bool {
        self.rgba_data.len() == self.width * self.height * 4
    }
}

impl Clone for DecodedFrame {
    fn clone(&self) -> (copy: Self)
        ensures
            copy.rgba_data@ == self.rgba_data@,
            copy.width == self.width,
            copy.height == self.height,
    {
        DecodedFrame { rgba_data: self.rgba_data.clone(), width: self.width, height: self.height }
    }
}

/// Calls `Decoder::new`: a decoder with the settings that OpenH264 starts
/// with, or the error that the codec reports.
#[verifier::external_body]
fn open_decoder() -> (decoder: Result<openh264::decoder::Decoder, openh264::Error>) {
    openh264::decoder::Decoder::new()
}

/// Calls `Decoder::decode` and, where it yields a picture, writes the
/// picture out as RGBA with `DecodedYUV::write_rgba8`, into a buffer of the
/// size that `estimate_rgba_u8_size` gives. Returns the bytes with the
/// picture's width and height: four bytes for each pixel. Which picture
/// comes, if any, depends on what the decoder has seen before.
#[verifier::external_body]
fn decode_to_rgba(decoder: &mut openh264::decoder::Decoder, packet: &[u8]) -> (picture: Result<
    Option<(Vec<u8>, usize, usize)>,
    openh264::Error,
>)
    requires
        packet.len() <= i32::MAX,
    ensures
        picture matches Ok(Some((rgba, width, height))) ==> rgba.len() == width * height * 4,
{
    match decoder.decode(packet) {
        Ok(Some(yuv)) => {
            let (width, height) = yuv.dimensions();
            let mut rgba = vec![0u8; yuv.estimate_rgba_u8_size()];
            yuv.write_rgba8(&mut rgba);
            Ok(Some((rgba, width, height)))
        },
        Ok(None) => Ok(None),
        Err(error) => Err(error),
    }
}

/// The frame that a picture of the codec makes. Fails with a `DecoderError`
/// exactly if a side of the picture does not fit 32 bits.
pub fn frame_of_picture(rgba: Vec<u8>, width: usize, height: usize) -> (frame: Result<
    DecodedFrame,
    BroadcastError,
>)
    ensures
        frame is Ok <==> width <= u32::MAX && height <= u32::MAX,
        frame matches Ok(f) ==> f.rgba_data@ == rgba@ && f.width == width && f.height == height,
        frame matches Err(e) ==> e is DecoderError,
{
    if width > u32::MAX as usize || height > u32::MAX as usize {
        return Err(BroadcastError::DecoderError(String::from_str("picture too large")));
    }
    Ok(DecodedFrame { rgba_data: rgba, width: width as u32, height: height as u32 })
}

/// An H.264 decoder that counts the frames it hands out.
pub struct H264Decoder {
    decoder: openh264::decoder::Decoder,
    frame_count: u64,
}

impl H264Decoder {
    /// Frames handed out so far.
    pub closed spec fn spec_frame_count(&self) -> u64 {
        self.frame_count
    }

    /// A decoder that has handed out no frame. Fails with a `DecoderError`
    /// if the codec cannot be set up: the error's text is
    /// `Failed to create decoder: ` and what the codec reports.
    pub fn new() -> (made: Result<Self, BroadcastError>)
        ensures
            made matches Ok(d) ==> d.spec_frame_count() == 0,
            made matches Err(e) ==> e is DecoderError && begins_with(
                e.context(),
                "Failed to create decoder: "@,
            ),
    {
        Self::from_opened(open_decoder())
    }

    /// The codec's decoder that this decoder calls.
    pub closed spec fn spec_codec(&self) -> openh264::decoder::Decoder {
        self.decoder
    }

    /// What becomes of an attempt to set up the codec: a decoder around the
    /// codec that has handed out no frame, or a `DecoderError` whose text is
    /// `Failed to create decoder: ` and what the codec reports.
    pub fn from_opened(opened: Result<openh264::decoder::Decoder, openh264::Error>) -> (made:
        Result<Self, BroadcastError>)
        ensures
            made is Ok <==> opened is Ok,
            made matches Ok(d) ==> d.spec_frame_count() == 0 && Ok::<
                openh264::decoder::Decoder,
                openh264::Error,
            >(d.spec_codec()) == opened,
            made matches Err(e) ==> e is DecoderError && begins_with(
                e.context(),
                "Failed to create decoder: "@,
            ),
    {
        match opened {
            Ok(decoder) => Ok(H264Decoder { decoder, frame_count: 0 }),
            Err(error) => {
                let text: String = String::from_str("Failed to create decoder: ").concat(
                    codec_error_text(&error).as_str(),
                );
                assert(text@.subrange(0, "Failed to create decoder: "@.len() as int)
                    =~= "Failed to create decoder: "@);
                Err(BroadcastError::DecoderError(text))
            },
        }
    }

    pub fn frame_count(&self) -> (count: u64)
        ensures
            count == self.spec_frame_count(),
    {
        self.frame_count
    }

    /// Decodes the NAL units of one access unit. Returns the picture that
    /// the codec hands out for them, if it hands one out, and counts it.
    /// Fails with a `DecoderError` where the codec reports an error, where
    /// the input is longer than the codec takes, and where a picture does
    /// not fit a frame.
    pub fn decode(&mut self, h264_data: &[u8]) -> (out: Result<Option<DecodedFrame>, BroadcastError>)
        ensures
            h264_data.len() > i32::MAX ==> out is Err,
            match out {
                Ok(Some(frame)) => {
                    &&& frame.wf()
                    &&& final(self).spec_frame_count() as int == (old(self).spec_frame_count() + 1)
                        % 0x1_0000_0000_0000_0000
                },
                Ok(None) => final(self).spec_frame_count() == old(self).spec_frame_count(),
                Err(e) => {
                    &&& e is DecoderError
                    &&& final(self).spec_frame_count() == old(self).spec_frame_count()
                },
            },
    {
        if h264_data.len() > i32::MAX as usize {
            return Err(BroadcastError::DecoderError(String::from_str("access unit too large")));
        }
        match decode_to_rgba(&mut self.decoder, h264_data) {
            Ok(Some((rgba, width, height))) => {
                match frame_of_picture(rgba, width, height) {
                    Ok(frame) => {
                        self.frame_count = self.frame_count.wrapping_add(1);
                        Ok(Some(frame))
                    },
                    Err(error) => Err(error),
                }
            },
            Ok(None) => Ok(None),
            Err(error) => Err(BroadcastError::DecoderError(codec_error_text(&error))),
        }
    }
}

} // verus!
