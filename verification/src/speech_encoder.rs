//! The speech encoder: a reference waveform becomes sixteen codes per frame.
//!
//! Strided causal convolutions, eight transformer layers, one more strided convolution and two
//! residual quantizers. It runs once per enrolled voice and never while speech is generated.
use vstd::prelude::*;
use vstd::string::StringExecFns;
use crate::text;
use crate::text::append_decimal;

pub mod conv;
pub mod encoder;
pub mod laws;
pub mod quantizer;
pub mod transformer;

pub use self::conv::{elu_in_place, EncoderConv, PadMode};
pub use self::encoder::SpeechEncoder;
pub use self::quantizer::RvqBranch;
pub use self::transformer::layer_norm;

verus! {

/// The only sample rate the encoder takes.
pub const ENCODER_SAMPLE_RATE_HZ: u32 = 24_000;

/// Samples per emitted frame.
pub const ENCODE_DOWNSAMPLE_RATE: usize = 1_920;

/// Codes per frame.
pub const CODE_GROUPS: usize = 16;

/// Width of the encoder.
pub const HIDDEN: usize = 512;

/// Width of a quantized vector.
pub const VQ_DIM: usize = 256;

/// Entries of a codebook.
pub const CODEBOOK_SIZE: usize = 2_048;

/// Why a waveform has no codes.
#[derive(Clone, Debug, PartialEq, Eq)]
pub enum SpeechEncodeError {
    /// The waveform is shorter than one frame.
    AudioTooShort {
        /// Its samples.
        samples: usize,
    },
    /// A sample is not a finite number.
    NonFiniteAudio {
        /// The first such sample.
        index: usize,
    },
}

impl SpeechEncodeError {
    /// The message of an error.
    pub open spec fn text(&self) -> Seq<char> {
        match self {
            SpeechEncodeError::AudioTooShort { samples } => "reference audio has "@
                + text::decimal_of(*samples as nat)
                + " samples; ICL encoding needs at least one "@ + text::decimal_of(
                ENCODE_DOWNSAMPLE_RATE as nat,
            ) + "-sample frame"@,
            SpeechEncodeError::NonFiniteAudio { index } => "reference audio sample "@
                + text::decimal_of(*index as nat) + " is not finite"@,
        }
    }

    /// The message of an error.
    pub fn message(&self) -> (message: String)
        ensures
            message@ == self.text(),
    {
        match self {
            SpeechEncodeError::AudioTooShort { samples } => {
                let mut message = String::from_str("reference audio has ");
                append_decimal(&mut message, *samples);
                message.append(" samples; ICL encoding needs at least one ");
                append_decimal(&mut message, ENCODE_DOWNSAMPLE_RATE);
                message.append("-sample frame");
                message
            },
            SpeechEncodeError::NonFiniteAudio { index } => {
                let mut message = String::from_str("reference audio sample ");
                append_decimal(&mut message, *index);
                message.append(" is not finite");
                message
            },
        }
    }
}

} // verus!
