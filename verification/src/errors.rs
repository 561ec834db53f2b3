//! The error taxonomy of the steganography core. File and console failures
//! belong to the caller; every error here is detected inside the engines.

use vstd::prelude::*;

verus! {

/// Why an embed or extract operation was refused.
#[derive(Clone, Copy, Debug, PartialEq, Eq, Structural)]
pub enum StegError {
    /// The image's bit depth is below 8 or its color layout is indexed.
    UnsupportedImageFormat,
    /// The framed payload does not fit in the image; `real_size` is the
    /// largest payload (in bytes) that would fit, zero when not even an
    /// empty payload would.
    PayloadTooLarge { real_size: u64 },
    /// The two images handed to extraction disagree on geometry, color
    /// layout or bit depth.
    FormatMismatch,
    /// No extension terminator byte was found in the extracted bytes.
    MalformedContainer,
    /// The declared payload length exceeds the bytes that were extracted.
    TruncatedPayload,
}

} // verus!
