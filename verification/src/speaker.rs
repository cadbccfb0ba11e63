//! The speaker encoder: a reference waveform becomes log-mel frames, and those one speaker vector.
//!
//! The vector enters the talker as it is, with no projection and no norm behind it, so every stage
//! here is stated operation by operation.
use vstd::prelude::*;
use vstd::string::StringExecFns;
use crate::text;
use crate::text::append_decimal;

pub mod conv;
pub mod encoder;
pub mod laws;
pub mod mel;
pub mod mel_laws;
pub mod pooling_laws;

pub use self::conv::same_conv1d;
pub use self::encoder::{softmax_over_time, statistics, Encoder};
pub use self::mel::{log_mel_from_24khz_pcm, LogMel, Spectral};

verus! {

/// Mel bins the encoder reads.
pub const MEL_DIM: usize = 128;

/// Width of the speaker vector.
pub const ENC_DIM: usize = 1_024;

/// Channels of each block.
pub const ENC_CHANNELS: [usize; 5] = [512, 512, 512, 512, 1_536];

/// Kernel of each block.
pub const ENC_KERNEL_SIZES: [usize; 5] = [5, 3, 3, 3, 1];

/// Dilation of each block.
pub const ENC_DILATIONS: [usize; 5] = [1, 2, 3, 4, 1];

/// Channel groups of a Res2Net chain.
pub const RES2NET_SCALE: usize = 8;

/// Width of the squeeze-excitation bottleneck.
pub const SE_CHANNELS: usize = 128;

/// Width of the attention bottleneck of the pooling.
pub const ATTENTION_CHANNELS: usize = 128;

/// SE-Res2Net blocks.
pub const SE_RES2NET_BLOCKS: usize = 3;

/// The only sample rate the encoder takes.
pub const SPEAKER_SAMPLE_RATE_HZ: u32 = 24_000;

/// Samples of one analysis window.
pub const SPEAKER_FFT_SIZE: usize = 1_024;

/// Samples from one window to the next.
pub const SPEAKER_HOP_SAMPLES: usize = 256;

/// Samples mirrored at either end.
pub const SPEAKER_REFLECT_PAD_SAMPLES: usize = 384;

/// The shortest waveform that can be mirrored so far.
pub const SPEAKER_MIN_AUDIO_SAMPLES: usize = 385;

/// Why a waveform has no features.
#[derive(Clone, Debug, PartialEq, Eq)]
pub enum FeatureError {
    /// The waveform is too short to be mirrored.
    TooShort {
        /// Its samples.
        samples: usize,
    },
    /// A sample is not a finite number.
    NonFinite {
        /// The first such sample.
        index: usize,
    },
}

impl FeatureError {
    /// The message of an error.
    pub open spec fn text(&self) -> Seq<char> {
        match self {
            FeatureError::TooShort { samples } => "reference has "@ + text::decimal_of(
                *samples as nat,
            ) + " samples; speaker mel extraction needs more than "@ + text::decimal_of(
                SPEAKER_REFLECT_PAD_SAMPLES as nat,
            ) + " samples for the pinned reflect pad"@,
            FeatureError::NonFinite { index } => "reference PCM has a non-finite sample at index "@
                + text::decimal_of(*index as nat),
        }
    }

    /// The message of an error.
    pub fn message(&self) -> (message: String)
        ensures
            message@ == self.text(),
    {
        match self {
            FeatureError::TooShort { samples } => {
                let mut message = String::from_str("reference has ");
                append_decimal(&mut message, *samples);
                message.append(" samples; speaker mel extraction needs more than ");
                append_decimal(&mut message, SPEAKER_REFLECT_PAD_SAMPLES);
                message.append(" samples for the pinned reflect pad");
                message
            },
            FeatureError::NonFinite { index } => {
                let mut message = String::from_str(
                    "reference PCM has a non-finite sample at index ",
                );
                append_decimal(&mut message, *index);
                message
            },
        }
    }
}

/// An index mirrored into `0..len`: the edge is the axis, and is not repeated.
pub open spec fn reflected(index: int, len: int) -> int {
    if len == 1 {
        0
    } else {
        let period = 2 * (len - 1);
        let wrapped = index % period;
        if wrapped >= len {
            period - wrapped
        } else {
            wrapped
        }
    }
}

/// A mirrored index is an index, one already inside stays, and one beyond an edge is as far
/// inside as it was outside.
pub proof fn law_reflection_mirrors_at_the_edges(index: int, len: int)
    requires
        0 < len,
    ensures
        0 <= reflected(index, len) < len,
        0 <= index < len ==> reflected(index, len) == index,
        -len < index < 0 ==> reflected(index, len) == -index,
        len <= index < 2 * len - 1 ==> reflected(index, len) == 2 * (len - 1) - index,
{
    if len > 1 {
        let period = 2 * (len - 1);
        assert(0 <= index % period < period) by (nonlinear_arith)
            requires
                period > 0,
        ;
        if 0 <= index < period {
            assert(index % period == index) by (nonlinear_arith)
                requires
                    0 <= index < period,
            ;
        }
        if -len < index < 0 {
            assert(index % period == index + period) by (nonlinear_arith)
                requires
                    -period <= index < 0,
            ;
        }
        if index == period {
            assert(index % period == 0) by (nonlinear_arith)
                requires
                    index == period,
                    period > 0,
            ;
        }
    }
}

/// Both edges are axes, for every index, and the mirrored indices repeat.
pub proof fn law_reflection_is_symmetric(index: int, len: int)
    requires
        1 < len,
    ensures
        reflected(-index, len) == reflected(index, len),
        reflected(len - 1 + index, len) == reflected(len - 1 - index, len),
        reflected(index + 2 * (len - 1), len) == reflected(index, len),
{
    let period = 2 * (len - 1);
    let other = len - 1 - index;
    assert(other + period * 1 == len - 1 - index + period);
    vstd::arithmetic::div_mod::lemma_mod_multiples_vanish(1, index, period);
    vstd::arithmetic::div_mod::lemma_mod_multiples_vanish(1, -other, period);
    lemma_opposite_remainders(index, period);
    lemma_opposite_remainders(other, period);
}

/// Opposite indices leave opposite remainders.
proof fn lemma_opposite_remainders(index: int, period: int)
    requires
        0 < period,
    ensures
        0 <= index % period < period,
        (-index) % period == if index % period == 0 {
            0
        } else {
            period - index % period
        },
{
    let q = index / period;
    let r = index % period;
    vstd::arithmetic::div_mod::lemma_fundamental_div_mod(index, period);
    vstd::arithmetic::div_mod::lemma_mod_bound(index, period);
    if r == 0 {
        assert(-index == (-q) * period + 0) by (nonlinear_arith)
            requires
                index == period * q + r,
                r == 0,
        ;
        vstd::arithmetic::div_mod::lemma_fundamental_div_mod_converse(-index, period, -q, 0);
    } else {
        assert(-index == (-q - 1) * period + (period - r)) by (nonlinear_arith)
            requires
                index == period * q + r,
        ;
        vstd::arithmetic::div_mod::lemma_fundamental_div_mod_converse(
            -index,
            period,
            -q - 1,
            period - r,
        );
    }
}

/// Mirrors an index into `0..len`.
pub fn reflect_index(index: isize, len: isize) -> (at: usize)
    requires
        0 < len,
        2 * (len - 1) <= isize::MAX,
    ensures
        at == reflected(index as int, len as int),
        at < len,
{
    proof {
        law_reflection_mirrors_at_the_edges(index as int, len as int);
    }
    if len == 1 {
        return 0;
    }
    let n: usize = len as usize;
    let period: usize = 2 * (n - 1);
    let wrapped: usize = if index >= 0 {
        index as usize % period
    } else {
        let before: usize = (-(index + 1)) as usize;
        let rest: usize = before % period;
        proof {
            let q = before as int / period as int;
            assert(index as int == -(period * q + rest + 1)) by (nonlinear_arith)
                requires
                    before == -(index + 1),
                    q == before as int / period as int,
                    rest == before as int % period as int,
                    period > 0,
            ;
            let d = period as int;
            let r = period - 1 - rest;
            assert(index as int == (-q - 1) * d + r) by (nonlinear_arith)
                requires
                    index as int == -(d * q + rest + 1),
                    r == d - 1 - rest,
            ;
            vstd::arithmetic::div_mod::lemma_fundamental_div_mod_converse(index as int, d, -q - 1, r);
        }
        period - 1 - rest
    };
    if wrapped >= n {
        period - wrapped
    } else {
        wrapped
    }
}

} // verus!
