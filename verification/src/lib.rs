//! Incremental decoding of the alpha (transparency) plane of a lossy
//! WebP-style bitstream.
//!
//! The crate covers the alpha decompression pipeline: parsing and
//! validating the one-byte alpha header, row-wise inverse prediction
//! filtering, resumable caller-driven row-range decoding, and the optional
//! one-shot dithering pass that runs when the header requests
//! preprocessing.  It also provides the boolean (arithmetic-coded) bit
//! reader primitive and the pseudo-random generator that the dithering
//! pass draws from.
//!
//! The entropy (lossless-image) sub-decoder for compressed alpha data is an
//! external collaborator: when a frame stores its alpha plane with method 1
//! the decoder hands the caller explicit requests (`AlphaOutcome`) and the
//! caller feeds the sub-decoder's results back in.

use vstd::prelude::*;

pub mod alpha_dec;
pub mod bit_reader;
pub mod dsp;
pub mod filters;
pub mod quant_levels;
pub mod random_utils;
pub mod vp8_io;
pub mod webpbox;

verus! {

/// Status of a frame decoder, reported to callers of the decoding API.
#[allow(non_camel_case_types)]
#[derive(Clone, Copy, Debug, PartialEq, Eq, Structural)]
pub enum VP8StatusCode {
    VP8_STATUS_OK,
    VP8_STATUS_OUT_OF_MEMORY,
    VP8_STATUS_INVALID_PARAM,
    VP8_STATUS_BITSTREAM_ERROR,
    VP8_STATUS_UNSUPPORTED_FEATURE,
    VP8_STATUS_SUSPENDED,
    VP8_STATUS_USER_ABORT,
    VP8_STATUS_NOT_ENOUGH_DATA,
}

} // verus!
