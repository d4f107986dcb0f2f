//! What the pipeline reports to a front end.

use crate::decoder::DecodedFrame;
use base64::Engine;
use vstd::prelude::*;

verus! {

/// The text that the standard base64 alphabet, with padding, gives for
/// `bytes`.
pub uninterp spec fn base64_standard(bytes: Seq<u8>) -> Seq<char>;

/// The length of the base64 text of `len` bytes: four characters for every
/// three bytes begun.
pub open spec fn base64_len(len: int) -> int {
    len / 3 * 4 + if len % 3 > 0 {
        4int
    } else {
        0int
    }
}

/// Calls `Engine::encode` of `base64::engine::general_purpose::STANDARD`:
/// the bytes as base64 text in the standard alphabet, with padding. The text
/// depends on the bytes alone. The call panics where the length of the text
/// does not fit `usize`; such input is left out.
#[verifier::external_body]
fn base64_encode(bytes: &[u8]) -> (text: String)
    requires
        base64_len(bytes.len() as int) <= usize::MAX,
    ensures
        text@ == base64_standard(bytes@),
{
    base64::engine::general_purpose::STANDARD.encode(bytes)
}

/// A decoded frame as a front end takes it: its size, and its RGBA bytes as
/// base64 text.
#[derive(Debug)]
pub struct FrameData {
    pub width: u32,
    pub height: u32,
    pub data: String,
}

impl FrameData {
    pub fn new(width: u32, height: u32, data: String) -> (event: Self)
        ensures
            event.width == width,
            event.height == height,
            event.data@ == data@,
    {
        FrameData { width, height, data }
    }

    /// The event for a decoded frame. `None` exactly if the frame is so
    /// large that the length of its base64 text does not fit `usize`.
    pub fn of_frame(frame: &DecodedFrame) -> (event: Option<Self>)
        ensures
            event is Some <==> base64_len(frame.rgba_data.len() as int) <= usize::MAX,
            event matches Some(e) ==> e.width == frame.width && e.height == frame.height && e.data@
                == base64_standard(frame.rgba_data@),
    {
        let len: usize = frame.rgba_data.len();
        let tail: usize = if len % 3 > 0 {
            4
        } else {
            0
        };
        if len / 3 > (usize::MAX - tail) / 4 {
            return None;
        }
        Some(FrameData::new(frame.width, frame.height, base64_encode(frame.rgba_data.as_slice())))
    }
}

} // verus!
