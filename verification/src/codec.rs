//! What the encoder and the decoder share of the OpenH264 bindings.

use vstd::prelude::*;

verus! {

/// `openh264::Error`, what the codec reports when it fails. Nothing is
/// known of its contents.
#[verifier::external_type_specification]
#[verifier::external_body]
pub struct ExCodecError(openh264::Error);

/// The text of an `openh264::Error`, as its `Display` writes it. Nothing is
/// claimed of the text.
#[verifier::external_body]
pub(crate) fn codec_error_text(error: &openh264::Error) -> (text: String) {
    error.to_string()
}

/// `text` begins with `prefix`.
pub open spec fn begins_with(text: Seq<char>, prefix: Seq<char>) -> bool {
    text.len() >= prefix.len() && text.subrange(0, prefix.len() as int) == prefix
}

} // verus!
