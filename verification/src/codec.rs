//! The 12 Hz speech-tokenizer decoder.
//!
//! Codes become latents ([`quantizer`]), latents pass a causal convolution and a sliding-window
//! transformer ([`transformer`]), and two latent and four waveform stages ([`stages`]) bring them
//! to 24 kHz samples. Everything is causal, so the decoder runs packet by packet
//! ([`decoder`]) with the same result as over the whole sequence ([`laws`]).
use vstd::prelude::*;
use vstd::string::StringExecFns;
use crate::arith;
use crate::arith::{constant, Arithmetic, Constant};
use crate::text;
use crate::text::{append_decimal, append_signed_decimal, join_number};

pub mod chain_laws;
pub mod conv;
pub mod conv_laws;
pub mod decoder;
pub mod laws;
pub mod quantizer;
pub mod stage_laws;
pub mod stages;
pub mod streams;
pub mod transformer;
pub mod transformer_laws;

pub use crate::kernels::gelu;
pub use conv::{causal_conv1d, causal_transpose_conv1d};
pub use decoder::{decode_codec_offline, CodecDecoderWeights, CodecStreamingState};
pub use quantizer::{MaterializedCodebook, SplitResidualVectorQuantizer};
pub use stages::{
    forward_convnext, forward_decoder_block, snake_beta_in_place, CausalConvWeights,
    CausalTransposeConvWeights, CodecConvNextWeights, CodecDecoderBlockWeights,
    CodecResidualUnitWeights, CodecUpsampleStageWeights,
};
pub use streams::{CausalConvStream, CausalTransposeConvStream};
pub use transformer::{
    codec_rope_rows, forward_codec_pre_transformer, forward_codec_transformer_step, CodecKvCache,
    CodecPreTransformerWeights, CodecTransformerLayerWeights,
};

verus! {

/// The number of codec groups emitted per 80 ms frame.
pub const CODEC_GROUPS: usize = 16;

/// Entries of every codebook.
pub const CODEBOOK_SIZE: usize = 2_048;

/// Width of a codebook vector, not of the 512-wide codec latent.
pub const CODEBOOK_DIM: usize = 256;

/// Width of the codec latent after each quantizer output projection.
pub const CODEC_LATENT_DIM: usize = 512;

/// The pre-transformer's input and output width before its input projection.
pub const PRE_TRANSFORMER_LATENT_DIM: usize = 1_024;

/// The pre-transformer's hidden width.
pub const PRE_TRANSFORMER_HIDDEN_DIM: usize = 512;

/// The pre-transformer's attention width, wider than its hidden width.
pub const PRE_TRANSFORMER_ATTENTION_DIM: usize = 1_024;

/// Positions every codec transformer layer retains.
pub const PRE_TRANSFORMER_WINDOW: usize = 72;

/// The longest eight-bit reduction: 1024 input channels times a width-seven convolution.
pub const CODEC_MAX_INT8_REDUCTION_K: usize = 7_168;

/// The largest sum of unsigned-by-signed eight-bit products over the longest reduction.
pub const CODEC_MAX_U8S8_ACCUMULATOR: i64 = 255 * 127 * 7_168;

/// Geometry of the codec decoder.
#[derive(Clone, Copy, Debug)]
pub struct CodecConfig<S> {
    /// Code groups per frame.
    pub groups: usize,
    /// Entries per codebook.
    pub codebook_size: usize,
    /// Codebook vector width.
    pub codebook_dim: usize,
    /// Quantizer output width.
    pub codec_latent_dim: usize,
    /// Pre-transformer input and output width.
    pub transformer_latent_dim: usize,
    /// Pre-transformer hidden width.
    pub transformer_hidden_dim: usize,
    /// Query heads, and as many key/value heads.
    pub attention_heads: usize,
    /// Width of one head.
    pub attention_head_dim: usize,
    /// SwiGLU inner width.
    pub transformer_intermediate_dim: usize,
    /// Retained causal attention window.
    pub sliding_window: usize,
    /// RMSNorm epsilon.
    pub rms_norm_eps: S,
}

impl<S> CodecConfig<S> {
    /// Total query, key and value projection width.
    pub fn attention_dim(&self) -> (width: usize)
        requires
            self.attention_heads * self.attention_head_dim <= usize::MAX,
        ensures
            width == self.attention_heads * self.attention_head_dim,
    {
        self.attention_heads * self.attention_head_dim
    }

    /// Total query, key and value projection width.
    pub open spec fn attention_width(&self) -> int {
        self.attention_heads * self.attention_head_dim
    }
}

/// The geometry of the shipped 12 Hz decoder.
pub fn default_codec_config<A: Arithmetic>() -> (config: CodecConfig<A::Scalar>)
    ensures
        config.groups == 16,
        config.codebook_size == 2_048,
        config.codebook_dim == 256,
        config.codec_latent_dim == 512,
        config.transformer_latent_dim == 1_024,
        config.transformer_hidden_dim == 512,
        config.attention_heads == 16,
        config.attention_head_dim == 64,
        config.transformer_intermediate_dim == 1_024,
        config.sliding_window == 72,
        arith::pure::<A>() ==> config.rms_norm_eps == arith::cst::<A>(Constant::CodecRmsEpsilon),
{
    CodecConfig {
        groups: CODEC_GROUPS,
        codebook_size: CODEBOOK_SIZE,
        codebook_dim: CODEBOOK_DIM,
        codec_latent_dim: CODEC_LATENT_DIM,
        transformer_latent_dim: PRE_TRANSFORMER_LATENT_DIM,
        transformer_hidden_dim: PRE_TRANSFORMER_HIDDEN_DIM,
        attention_heads: 16,
        attention_head_dim: 64,
        transformer_intermediate_dim: 1_024,
        sliding_window: PRE_TRANSFORMER_WINDOW,
        rms_norm_eps: constant::<A>(Constant::CodecRmsEpsilon),
    }
}

/// A named refusal from codec input or weight validation.
#[derive(Clone, Debug, PartialEq, Eq)]
pub enum CodecError {
    /// An unnormalised codebook does not match the configured geometry.
    CodebookShape,
    /// A codebook usage count is not finite.
    NonFiniteClusterUsage { row: usize },
    /// A code lies outside its codebook.
    InvalidCode { frame: usize, group: usize, code: i32 },
    /// The codes, codebooks and buffers do not fit the decoder's geometry.
    CodeLayout,
    /// A requested eight-bit reduction cannot accumulate in 32 bits.
    I32AccumulatorOverflow { reduction_k: usize },
}

impl CodecError {
    /// The error as it is written out.
    pub open spec fn text(&self) -> Seq<char> {
        match self {
            CodecError::CodebookShape => "CodebookShape"@,
            CodecError::NonFiniteClusterUsage { row } => "NonFiniteClusterUsage { row: "@
                + text::decimal_of(*row as nat) + " }"@,
            CodecError::InvalidCode { frame, group, code } => "InvalidCode { frame: "@
                + text::decimal_of(*frame as nat) + ", group: "@ + text::decimal_of(*group as nat)
                + ", code: "@ + text::signed_decimal_of(*code as int) + " }"@,
            CodecError::CodeLayout => "CodeLayout"@,
            CodecError::I32AccumulatorOverflow { reduction_k } =>
                "I32AccumulatorOverflow { reduction_k: "@ + text::decimal_of(*reduction_k as nat)
                + " }"@,
        }
    }

    /// The error as it is written out.
    pub fn message(&self) -> (message: String)
        ensures
            message@ == self.text(),
    {
        match self {
            CodecError::CodebookShape => String::from_str("CodebookShape"),
            CodecError::NonFiniteClusterUsage { row } => join_number(
                "NonFiniteClusterUsage { row: ",
                *row,
                " }",
            ),
            CodecError::InvalidCode { frame, group, code } => {
                let mut message = join_number("InvalidCode { frame: ", *frame, ", group: ");
                append_decimal(&mut message, *group);
                message.append(", code: ");
                append_signed_decimal(&mut message, *code);
                message.append(" }");
                message
            },
            CodecError::CodeLayout => String::from_str("CodeLayout"),
            CodecError::I32AccumulatorOverflow { reduction_k } => join_number(
                "I32AccumulatorOverflow { reduction_k: ",
                *reduction_k,
                " }",
            ),
        }
    }
}

/// Refuses an eight-bit kernel whose unsigned-by-signed accumulation cannot fit in 32 bits.
pub fn require_i32_safe_u8s8_reduction(reduction_k: usize) -> (result: Result<(), CodecError>)
    ensures
        u8::MAX * i8::MAX * reduction_k <= i32::MAX ==> result == Ok::<(), CodecError>(()),
        u8::MAX * i8::MAX * reduction_k > i32::MAX ==> result == Err::<(), CodecError>(
            (CodecError::I32AccumulatorOverflow { reduction_k }),
        ),
{
    let worst: u128 = 255 * 127 * (reduction_k as u128);
    proof {
        assert(u8::MAX * i8::MAX * reduction_k == 32_385 * reduction_k) by (nonlinear_arith);
    }
    if worst > 2_147_483_647 {
        return Err(CodecError::I32AccumulatorOverflow { reduction_k });
    }
    Ok(())
}

} // verus!
