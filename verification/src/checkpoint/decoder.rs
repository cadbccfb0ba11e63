//! The codec decoder's checkpoint.
use vstd::prelude::*;
use vstd::string::StringExecFns;
use crate::arith;
use crate::arith::{Check, Constant};
use crate::checkpoint::decoder_plan;
use crate::checkpoint::decoder_plan::{codec_tensor_len, codec_tensor_name, CODEC_TENSORS};
use crate::checkpoint::store;
use crate::checkpoint::store::{FileStore, TensorStore};
use crate::checkpoint::CheckpointError;
use crate::codec::decoder;
use crate::codec::decoder::{
    decode_codec_offline, CodecDecoderWeights, CodecStreamingState, DecoderContext,
};
use crate::codec::quantizer;
use crate::codec::quantizer::{MaterializedCodebook, SplitResidualVectorQuantizer};
use crate::codec::stages::{
    CausalConvWeights, CausalTransposeConvWeights, CodecConvNextWeights, CodecDecoderBlockWeights,
    CodecResidualUnitWeights, CodecUpsampleStageWeights,
};
use crate::codec::transformer::{CodecPreTransformerWeights, CodecTransformerLayerWeights};
use crate::codec::{
    default_codec_config, CodecConfig, CodecError, CODEBOOK_DIM, CODEBOOK_SIZE,
};
use crate::rows;
use crate::rows::append_row;
use crate::storage::Bits;
use crate::tensor_file::TensorFile;
use crate::text;
use crate::text::{join, join_number};

verus! {

/// The codec decoder's checkpoint: codebooks, and the other tensors in order.
pub struct CodecCheckpoint<B: Bits> {
    config: CodecConfig<B::Scalar>,
    first_codebook: MaterializedCodebook<B>,
    rest_codebooks: Vec<MaterializedCodebook<B>>,
    tensors: Vec<Vec<B::Scalar>>,
}

/// That a configuration has the shipped geometry.
pub open spec fn shipped<S>(config: CodecConfig<S>) -> bool {
    &&& config.groups == 16
    &&& config.codebook_size == 2_048
    &&& config.codebook_dim == 256
    &&& config.codec_latent_dim == 512
    &&& config.transformer_latent_dim == 1_024
    &&& config.transformer_hidden_dim == 512
    &&& config.attention_heads == 16
    &&& config.attention_head_dim == 64
    &&& config.transformer_intermediate_dim == 1_024
    &&& config.sliding_window == 72
}

/// That a codebook has the shipped shape.
pub open spec fn shipped_book<B: Bits>(book: MaterializedCodebook<B>) -> bool {
    &&& book.wf()
    &&& book.size() == CODEBOOK_SIZE
    &&& book.width() == CODEBOOK_DIM
}

/// That codes are whole frames of sixteen, each of which names an entry of its codebook.
pub open spec fn acceptable(codes: Seq<i32>, frames: int) -> bool {
    &&& codes.len() == frames * 16
    &&& forall|f: int, g: int|
        0 <= f < frames && 0 <= g < 16 ==> 0 <= #[trigger] rows::unstack(codes, frames, 16)[f][g]
            < CODEBOOK_SIZE
}

impl<B: Bits> CodecCheckpoint<B> {
    /// The geometry.
    pub closed spec fn geometry(&self) -> CodecConfig<B::Scalar> {
        self.config
    }

    /// The codebook of one group.
    pub closed spec fn book(&self, group: int) -> MaterializedCodebook<B> {
        if group == 0 {
            self.first_codebook
        } else {
            self.rest_codebooks@[group - 1]
        }
    }

    /// The numbers of tensor `i`.
    pub closed spec fn tensor(&self, i: int) -> Seq<B::Scalar> {
        self.tensors@[i]@
    }

    /// The shipped geometry, sixteen codebooks and every tensor.
    pub closed spec fn wf(&self) -> bool {
        &&& shipped(self.config)
        &&& self.rest_codebooks@.len() == 15
        &&& self.tensors@.len() == CODEC_TENSORS
        &&& shipped_book(self.first_codebook)
        &&& forall|i: int| 0 <= i < 15 ==> shipped_book(#[trigger] self.rest_codebooks@[i])
    }

    /// That the norms run with the shipped epsilon.
    pub open spec fn standard(&self) -> bool {
        self.geometry().rms_norm_eps == arith::cst::<B>(Constant::CodecRmsEpsilon)
    }

    /// A well-formed checkpoint has the shipped geometry and sixteen codebooks of the shipped
    /// shape.
    pub proof fn lemma_wf(&self)
        requires
            self.wf(),
        ensures
            shipped(self.geometry()),
            forall|group: int| 0 <= group < 16 ==> shipped_book(#[trigger] self.book(group)),
    {
        assert forall|group: int| 0 <= group < 16 implies shipped_book(
            #[trigger] self.book(group),
        ) by {
            if group > 0 {
                assert(shipped_book(self.rest_codebooks@[group - 1]));
            }
        }
    }

    /// That every tensor is as long as its place in the decoder asks for.
    pub open spec fn shaped(&self) -> bool {
        forall|i: int|
            0 <= i < CODEC_TENSORS ==> (#[trigger] self.tensor(i)).len()
                == decoder_plan::codec_len(i)
    }

    /// That a convolution is lent from tensor `i` on.
    pub open spec fn lends_conv<'a>(
        &self,
        w: CausalConvWeights<'a, B::Scalar>,
        i: int,
        input: int,
        output: int,
        kernel: int,
        dilation: int,
    ) -> bool {
        &&& w.weight@ == self.tensor(i)
        &&& w.bias@ == self.tensor(i + 1)
        &&& w.input_channels == input
        &&& w.output_channels == output
        &&& w.kernel == kernel
        &&& w.dilation == dilation
    }

    /// That a transposed convolution is lent from tensor `i` on.
    pub open spec fn lends_transposed<'a>(
        &self,
        w: CausalTransposeConvWeights<'a, B::Scalar>,
        i: int,
        input: int,
        output: int,
        kernel: int,
        stride: int,
    ) -> bool {
        &&& w.weight@ == self.tensor(i)
        &&& w.bias@ == self.tensor(i + 1)
        &&& w.input_channels == input
        &&& w.output_channels == output
        &&& w.kernel == kernel
        &&& w.stride == stride
    }

    /// That transformer layer `l` is lent.
    pub open spec fn lends_layer<'a>(
        &self,
        w: CodecTransformerLayerWeights<'a, B::Scalar>,
        l: int,
    ) -> bool {
        &&& w.input_layernorm@ == self.tensor(6 + 11 * l + 0)
        &&& w.q_proj@ == self.tensor(6 + 11 * l + 1)
        &&& w.k_proj@ == self.tensor(6 + 11 * l + 2)
        &&& w.v_proj@ == self.tensor(6 + 11 * l + 3)
        &&& w.o_proj@ == self.tensor(6 + 11 * l + 4)
        &&& w.self_attn_layer_scale@ == self.tensor(6 + 11 * l + 5)
        &&& w.post_attention_layernorm@ == self.tensor(6 + 11 * l + 6)
        &&& w.gate_proj@ == self.tensor(6 + 11 * l + 7)
        &&& w.up_proj@ == self.tensor(6 + 11 * l + 8)
        &&& w.down_proj@ == self.tensor(6 + 11 * l + 9)
        &&& w.mlp_layer_scale@ == self.tensor(6 + 11 * l + 10)
    }

    /// That latent stage `s` is lent.
    pub open spec fn lends_stage<'a>(
        &self,
        w: CodecUpsampleStageWeights<'a, B::Scalar>,
        s: int,
    ) -> bool {
        let at = 97 + 11 * s;
        &&& self.lends_transposed(w.transposed, at, 1_024, 1_024, 2, 2)
        &&& w.convnext.depthwise_weight@ == self.tensor(at + 2)
        &&& w.convnext.depthwise_bias@ == self.tensor(at + 3)
        &&& w.convnext.norm_weight@ == self.tensor(at + 4)
        &&& w.convnext.norm_bias@ == self.tensor(at + 5)
        &&& w.convnext.pwconv1@ == self.tensor(at + 6)
        &&& w.convnext.pwconv1_bias@ == self.tensor(at + 7)
        &&& w.convnext.pwconv2@ == self.tensor(at + 8)
        &&& w.convnext.pwconv2_bias@ == self.tensor(at + 9)
        &&& w.convnext.gamma@ == self.tensor(at + 10)
    }

    /// That a residual unit of `channels` is lent from tensor `i` on.
    pub open spec fn lends_unit<'a>(
        &self,
        w: CodecResidualUnitWeights<'a, B::Scalar>,
        i: int,
        channels: int,
        dilation: int,
    ) -> bool {
        &&& w.first_alpha_log@ == self.tensor(i)
        &&& w.first_beta_log@ == self.tensor(i + 1)
        &&& self.lends_conv(w.first_conv, i + 2, channels, channels, 7, dilation)
        &&& w.second_alpha_log@ == self.tensor(i + 4)
        &&& w.second_beta_log@ == self.tensor(i + 5)
        &&& self.lends_conv(w.second_conv, i + 6, channels, channels, 1, 1)
    }

    /// That waveform block `b` is lent.
    pub open spec fn lends_block<'a>(
        &self,
        w: CodecDecoderBlockWeights<'a, B::Scalar>,
        b: int,
    ) -> bool {
        let at = 121 + 28 * b;
        let input = decoder_plan::block_input(b);
        let stride = decoder_plan::block_stride(b);
        &&& w.alpha_log@ == self.tensor(at)
        &&& w.beta_log@ == self.tensor(at + 1)
        &&& self.lends_transposed(w.transposed, at + 2, input, input / 2, 2 * stride, stride)
        &&& self.lends_unit(w.residual_units@[0], at + 4, input / 2, 1)
        &&& self.lends_unit(w.residual_units@[1], at + 12, input / 2, 3)
        &&& self.lends_unit(w.residual_units@[2], at + 20, input / 2, 9)
    }

    /// That the decoder is lent whole.
    pub open spec fn lends<'a>(&self, w: CodecDecoderWeights<'a, B::Scalar>) -> bool {
        &&& self.lends_conv(w.pre_conv, 2, 512, 1_024, 3, 1)
        &&& w.pre_transformer.input_proj@ == self.tensor(4)
        &&& w.pre_transformer.input_proj_bias@ == self.tensor(5)
        &&& w.pre_transformer.layers@.len() == 8
        &&& forall|l: int|
            0 <= l < 8 ==> self.lends_layer(#[trigger] w.pre_transformer.layers@[l], l)
        &&& w.pre_transformer.final_norm@ == self.tensor(94)
        &&& w.pre_transformer.output_proj@ == self.tensor(95)
        &&& w.pre_transformer.output_proj_bias@ == self.tensor(96)
        &&& self.lends_stage(w.latent_upsample@[0], 0)
        &&& self.lends_stage(w.latent_upsample@[1], 1)
        &&& self.lends_conv(w.decoder_input, 119, 1_024, 1_536, 7, 1)
        &&& self.lends_block(w.decoder_blocks@[0], 0)
        &&& self.lends_block(w.decoder_blocks@[1], 1)
        &&& self.lends_block(w.decoder_blocks@[2], 2)
        &&& self.lends_block(w.decoder_blocks@[3], 3)
        &&& w.final_alpha_log@ == self.tensor(233)
        &&& w.final_beta_log@ == self.tensor(234)
        &&& self.lends_conv(w.final_conv, 235, 96, 1, 7, 1)
    }

    /// That the quantizer is lent.
    pub open spec fn lends_quantizer<'a>(
        &self,
        q: SplitResidualVectorQuantizer<'a, B>,
    ) -> bool {
        &&& *q.first_codebook == self.book(0)
        &&& q.rest_codebooks@.len() == 15
        &&& forall|i: int| 0 <= i < 15 ==> #[trigger] q.rest_codebooks@[i] == self.book(i + 1)
        &&& q.first_output_proj@ == self.tensor(0)
        &&& q.rest_output_proj@ == self.tensor(1)
    }

    /// That `result` is what decoding a whole code stream gives.
    pub open spec fn decodes(
        &self,
        codes: Seq<i32>,
        frames: int,
        result: Result<Vec<B::Scalar>, CheckpointError>,
    ) -> bool {
        exists|w: CodecDecoderWeights<'_, B::Scalar>, q: SplitResidualVectorQuantizer<'_, B>|
            {
                &&& #[trigger] self.lends(w)
                &&& #[trigger] self.lends_quantizer(q)
                &&& match result {
                    Ok(samples) => decoder::decoded_whole::<B>(
                        self.geometry(),
                        q,
                        w,
                        codes,
                        frames,
                        Ok(samples),
                    ),
                    Err(CheckpointError::Codec(error)) => decoder::decoded_whole::<B>(
                        self.geometry(),
                        q,
                        w,
                        codes,
                        frames,
                        Err(error),
                    ),
                    Err(_) => false,
                }
            }
    }

    /// What a packet that is taken leads to: its samples are appended, and the context goes on.
    pub open spec fn pushes(
        &self,
        before: DecoderContext<B::Scalar>,
        output: Seq<B::Scalar>,
        codes: Seq<i32>,
        frames: int,
        after: DecoderContext<B::Scalar>,
        extended: Seq<B::Scalar>,
    ) -> bool {
        exists|w: CodecDecoderWeights<'_, B::Scalar>, q: SplitResidualVectorQuantizer<'_, B>|
            {
                let grid = rows::unstack(codes, frames, 16);
                let config = self.geometry();
                &&& #[trigger] self.lends(w)
                &&& #[trigger] self.lends_quantizer(q)
                &&& q.layout_fits(config, codes.len() as int, frames, frames * 512)
                &&& forall|f: int| 0 <= f < frames ==> q.frame_fits(config, #[trigger] grid[f])
                &&& arith::pure::<B>() ==> {
                    let latents = q.latents_of(config, grid);
                    &&& extended == output + w.emitted::<B>(config, before, latents).flatten()
                    &&& after == w.retained::<B>(config, before, latents)
                }
            }
    }

    /// That a streaming state was made for this decoder.
    pub open spec fn streams<'a>(&self, state: CodecStreamingState<B>) -> bool {
        &&& state.wf()
        &&& state.config() == self.geometry()
        &&& forall|w: CodecDecoderWeights<'a, B::Scalar>| #[trigger]
            self.lends(w) ==> state.serves(w)
    }

    /// A tensor as a slice.
    fn slice(&self, i: usize) -> (values: &[B::Scalar])
        requires
            self.wf(),
            i < CODEC_TENSORS,
        ensures
            values@ == self.tensor(i as int),
    {
        self.tensors[i].as_slice()
    }

    /// A convolution from tensor `i` on.
    fn conv<'a>(
        &'a self,
        i: usize,
        input: usize,
        output: usize,
        kernel: usize,
        dilation: usize,
    ) -> (w: CausalConvWeights<'a, B::Scalar>)
        requires
            self.wf(),
            i + 1 < CODEC_TENSORS,
        ensures
            self.lends_conv(
                w,
                i as int,
                input as int,
                output as int,
                kernel as int,
                dilation as int,
            ),
    {
        CausalConvWeights {
            weight: self.slice(i),
            bias: self.slice(i + 1),
            input_channels: input,
            output_channels: output,
            kernel,
            dilation,
        }
    }

    /// A transposed convolution from tensor `i` on.
    fn transposed<'a>(
        &'a self,
        i: usize,
        input: usize,
        output: usize,
        kernel: usize,
        stride: usize,
    ) -> (w: CausalTransposeConvWeights<'a, B::Scalar>)
        requires
            self.wf(),
            i + 1 < CODEC_TENSORS,
        ensures
            self.lends_transposed(
                w,
                i as int,
                input as int,
                output as int,
                kernel as int,
                stride as int,
            ),
    {
        CausalTransposeConvWeights {
            weight: self.slice(i),
            bias: self.slice(i + 1),
            input_channels: input,
            output_channels: output,
            kernel,
            stride,
        }
    }

    /// Transformer layer `l`.
    fn layer<'a>(&'a self, l: usize) -> (w: CodecTransformerLayerWeights<'a, B::Scalar>)
        requires
            self.wf(),
            l < 8,
        ensures
            self.lends_layer(w, l as int),
    {
        let at: usize = 6 + 11 * l;
        CodecTransformerLayerWeights {
            input_layernorm: self.slice(at),
            q_proj: self.slice(at + 1),
            k_proj: self.slice(at + 2),
            v_proj: self.slice(at + 3),
            o_proj: self.slice(at + 4),
            self_attn_layer_scale: self.slice(at + 5),
            post_attention_layernorm: self.slice(at + 6),
            gate_proj: self.slice(at + 7),
            up_proj: self.slice(at + 8),
            down_proj: self.slice(at + 9),
            mlp_layer_scale: self.slice(at + 10),
        }
    }

    /// The transformer's layers.
    fn layers<'a>(&'a self) -> (layers: Vec<CodecTransformerLayerWeights<'a, B::Scalar>>)
        requires
            self.wf(),
        ensures
            layers@.len() == 8,
            forall|l: int| 0 <= l < 8 ==> self.lends_layer(#[trigger] layers@[l], l),
    {
        let mut layers: Vec<CodecTransformerLayerWeights<'a, B::Scalar>> = Vec::new();
        for l in 0..8usize
            invariant
                self.wf(),
                layers@.len() == l,
                forall|m: int| 0 <= m < l ==> self.lends_layer(#[trigger] layers@[m], m),
        {
            layers.push(self.layer(l));
        }
        layers
    }

    /// Latent stage `s`.
    fn stage<'a>(&'a self, s: usize) -> (w: CodecUpsampleStageWeights<'a, B::Scalar>)
        requires
            self.wf(),
            s < 2,
        ensures
            self.lends_stage(w, s as int),
    {
        let at: usize = 97 + 11 * s;
        CodecUpsampleStageWeights {
            transposed: self.transposed(at, 1_024, 1_024, 2, 2),
            convnext: CodecConvNextWeights {
                depthwise_weight: self.slice(at + 2),
                depthwise_bias: self.slice(at + 3),
                norm_weight: self.slice(at + 4),
                norm_bias: self.slice(at + 5),
                pwconv1: self.slice(at + 6),
                pwconv1_bias: self.slice(at + 7),
                pwconv2: self.slice(at + 8),
                pwconv2_bias: self.slice(at + 9),
                gamma: self.slice(at + 10),
            },
        }
    }

    /// A residual unit of `channels` from tensor `i` on.
    fn unit<'a>(&'a self, i: usize, channels: usize, dilation: usize) -> (w:
        CodecResidualUnitWeights<'a, B::Scalar>)
        requires
            self.wf(),
            i + 7 < CODEC_TENSORS,
        ensures
            self.lends_unit(w, i as int, channels as int, dilation as int),
    {
        CodecResidualUnitWeights {
            first_alpha_log: self.slice(i),
            first_beta_log: self.slice(i + 1),
            first_conv: self.conv(i + 2, channels, channels, 7, dilation),
            second_alpha_log: self.slice(i + 4),
            second_beta_log: self.slice(i + 5),
            second_conv: self.conv(i + 6, channels, channels, 1, 1),
        }
    }

    /// Waveform block `b`.
    fn block<'a>(&'a self, b: usize, input: usize, stride: usize) -> (w: CodecDecoderBlockWeights<
        'a,
        B::Scalar,
    >)
        requires
            self.wf(),
            b < 4,
            input == decoder_plan::block_input(b as int),
            stride == decoder_plan::block_stride(b as int),
        ensures
            self.lends_block(w, b as int),
    {
        let at: usize = 121 + 28 * b;
        let output: usize = input / 2;
        CodecDecoderBlockWeights {
            alpha_log: self.slice(at),
            beta_log: self.slice(at + 1),
            transposed: self.transposed(at + 2, input, output, 2 * stride, stride),
            residual_units: [
                self.unit(at + 4, output, 1),
                self.unit(at + 12, output, 3),
                self.unit(at + 20, output, 9),
            ],
        }
    }

    /// The quantizer.
    fn quantizer<'a>(&'a self) -> (q: SplitResidualVectorQuantizer<'a, B>)
        requires
            self.wf(),
        ensures
            self.lends_quantizer(q),
            q.wf(),
    {
        SplitResidualVectorQuantizer {
            first_codebook: &self.first_codebook,
            rest_codebooks: self.rest_codebooks.as_slice(),
            first_output_proj: self.slice(0),
            rest_output_proj: self.slice(1),
        }
    }

    /// The decoder's weights over its transformer layers.
    fn decoder_weights<'a>(
        &'a self,
        layers: &'a [CodecTransformerLayerWeights<'a, B::Scalar>],
    ) -> (w: CodecDecoderWeights<'a, B::Scalar>)
        requires
            self.wf(),
            layers@.len() == 8,
            forall|l: int| 0 <= l < 8 ==> self.lends_layer(#[trigger] layers@[l], l),
        ensures
            self.lends(w),
    {
        CodecDecoderWeights {
            pre_conv: self.conv(2, 512, 1_024, 3, 1),
            pre_transformer: CodecPreTransformerWeights {
                input_proj: self.slice(4),
                input_proj_bias: self.slice(5),
                layers,
                final_norm: self.slice(94),
                output_proj: self.slice(95),
                output_proj_bias: self.slice(96),
            },
            latent_upsample: [self.stage(0), self.stage(1)],
            decoder_input: self.conv(119, 1_024, 1_536, 7, 1),
            decoder_blocks: [
                self.block(0, 1_536, 8),
                self.block(1, 768, 5),
                self.block(2, 384, 4),
                self.block(3, 192, 3),
            ],
            final_alpha_log: self.slice(233),
            final_beta_log: self.slice(234),
            final_conv: self.conv(235, 96, 1, 7, 1),
        }
    }
}

impl<B: Bits> CodecCheckpoint<B> {
    /// A lent convolution fits where its tensors are as long as they must be.
    proof fn lemma_conv_fits<'a>(
        &self,
        w: CausalConvWeights<'a, B::Scalar>,
        i: int,
        input: int,
        output: int,
        kernel: int,
        dilation: int,
    )
        requires
            self.lends_conv(w, i, input, output, kernel, dilation),
            self.tensor(i).len() == output * input * kernel,
            self.tensor(i + 1).len() == output,
            0 < kernel <= 7,
            0 < dilation <= 9,
        ensures
            w.fits(),
    {
        assert((kernel - 1) * dilation <= 54) by (nonlinear_arith)
            requires
                0 < kernel <= 7,
                0 < dilation <= 9,
        ;
    }

    /// A lent residual unit fits where its tensors are as long as they must be.
    proof fn lemma_unit_fits<'a>(
        &self,
        w: CodecResidualUnitWeights<'a, B::Scalar>,
        i: int,
        channels: int,
        dilation: int,
    )
        requires
            self.lends_unit(w, i, channels, dilation),
            forall|m: int|
                0 <= m < 8 ==> #[trigger] self.tensor(i + m).len() == decoder_plan::unit_len(
                    channels,
                    m,
                ),
            0 < dilation <= 9,
        ensures
            w.fits(channels),
            w.second_conv.input_channels == channels,
    {
        assert(self.tensor(i + 0).len() == channels);
        assert(self.tensor(i + 1).len() == channels);
        assert(self.tensor(i + 2).len() == channels * channels * 7);
        assert(self.tensor(i + 3).len() == channels);
        assert(self.tensor(i + 4).len() == channels);
        assert(self.tensor(i + 5).len() == channels);
        assert(self.tensor(i + 6).len() == channels * channels);
        assert(self.tensor(i + 7).len() == channels);
        assert(channels * channels * 1 == channels * channels);
        self.lemma_conv_fits(w.first_conv, i + 2, channels, channels, 7, dilation);
        self.lemma_conv_fits(w.second_conv, i + 6, channels, channels, 1, 1);
    }

    /// The tensors of a block are as long as its plan says.
    proof fn lemma_block_lens(&self, b: int)
        requires
            self.shaped(),
            0 <= b < 4,
        ensures
            forall|j: int|
                0 <= j < 28 ==> #[trigger] self.tensor(121 + 28 * b + j).len()
                    == decoder_plan::block_len(b, j),
    {
        let at = 121 + 28 * b;
        assert forall|j: int| 0 <= j < 28 implies #[trigger] self.tensor(at + j).len()
            == decoder_plan::block_len(b, j) by {
            assert((28 * b + j) / 28 == b && (28 * b + j) % 28 == j);
            assert(self.tensor(at + j).len() == decoder_plan::codec_len(at + j));
        }
    }

    /// The tensors of a residual unit are as long as its plan says.
    proof fn lemma_unit_lens(&self, b: int, k: int)
        requires
            self.shaped(),
            0 <= b < 4,
            0 <= k < 3,
        ensures
            forall|m: int|
                0 <= m < 8 ==> #[trigger] self.tensor(121 + 28 * b + 4 + 8 * k + m).len()
                    == decoder_plan::unit_len(decoder_plan::block_input(b) / 2, m),
    {
        let at = 121 + 28 * b;
        let i = at + 4 + 8 * k;
        self.lemma_block_lens(b);
        assert forall|m: int| 0 <= m < 8 implies #[trigger] self.tensor(i + m).len()
            == decoder_plan::unit_len(decoder_plan::block_input(b) / 2, m) by {
            assert(self.tensor(at + (4 + 8 * k + m)).len() == decoder_plan::block_len(
                b,
                4 + 8 * k + m,
            ));
            assert((8 * k + m) % 8 == m);
        }
    }

    /// A lent block fits where its tensors are as long as they must be.
    proof fn lemma_block_fits<'a>(&self, w: CodecDecoderBlockWeights<'a, B::Scalar>, b: int)
        requires
            self.shaped(),
            0 <= b < 4,
            self.lends_block(w, b),
        ensures
            w.fits(),
            w.transposed.input_channels == decoder_plan::block_input(b),
            w.transposed.output_channels == decoder_plan::block_input(b) / 2,
            w.transposed.stride == decoder_plan::block_stride(b),
            forall|j: int|
                0 <= j < 3 ==> (#[trigger] w.residual_units@[j]).second_conv.input_channels
                    == decoder_plan::block_input(b) / 2,
    {
        let at = 121 + 28 * b;
        let input = decoder_plan::block_input(b);
        let output = input / 2;
        self.lemma_block_lens(b);
        assert(self.tensor(at + 0).len() == input);
        assert(self.tensor(at + 1).len() == input);
        assert(self.tensor(at + 2).len() == input * output * (2 * decoder_plan::block_stride(b)));
        assert(self.tensor(at + 3).len() == output);
        assert forall|k: int| 0 <= k < 3 implies {
            &&& (#[trigger] w.residual_units@[k]).fits(output)
            &&& w.residual_units@[k].second_conv.input_channels == output
        } by {
            let i = at + 4 + 8 * k;
            let dilation = if k == 0 {
                1int
            } else if k == 1 {
                3
            } else {
                9
            };
            assert(self.lends_unit(w.residual_units@[k], i, output, dilation));
            self.lemma_unit_lens(b, k);
            self.lemma_unit_fits(w.residual_units@[k], i, output, dilation);
        }
    }

    /// A lent stage fits where its tensors are as long as they must be.
    proof fn lemma_stage_fits<'a>(&self, w: CodecUpsampleStageWeights<'a, B::Scalar>, s: int)
        requires
            self.shaped(),
            0 <= s < 2,
            self.lends_stage(w, s),
        ensures
            w.fits(),
            w.transposed.input_channels == 1_024,
            w.transposed.output_channels == 1_024,
            w.transposed.stride == 2,
    {
        let at = 97 + 11 * s;
        assert forall|j: int| 0 <= j < 11 implies #[trigger] self.tensor(at + j).len()
            == decoder_plan::stage_len(j) by {
            assert((11 * s + j) % 11 == j);
            assert(self.tensor(at + j).len() == decoder_plan::codec_len(at + j));
        }
        assert(self.tensor(at + 0).len() == 2_097_152);
        assert(self.tensor(at + 1).len() == 1_024);
        assert(self.tensor(at + 2).len() == 7_168);
        assert(self.tensor(at + 3).len() == 1_024);
        assert(self.tensor(at + 4).len() == 1_024);
        assert(self.tensor(at + 5).len() == 1_024);
        assert(self.tensor(at + 6).len() == 4_194_304);
        assert(self.tensor(at + 7).len() == 4_096);
        assert(self.tensor(at + 8).len() == 4_194_304);
        assert(self.tensor(at + 9).len() == 1_024);
        assert(self.tensor(at + 10).len() == 1_024);
    }

    /// What the decoder is lent as fits the shipped geometry.
    pub proof fn lemma_lent_fits<'a>(&self, w: CodecDecoderWeights<'a, B::Scalar>)
        requires
            self.wf(),
            self.shaped(),
            self.lends(w),
        ensures
            w.fits(self.geometry()),
            w.streamable(),
            forall|i: int| 0 <= i < 2 ==> (#[trigger] w.latent_upsample@[i]).transposed.stride == 2,
            forall|i: int|
                0 <= i < 4 ==> (#[trigger] w.decoder_blocks@[i]).transposed.stride
                    == decoder_plan::block_stride(i),
    {
        let config = self.geometry();
        assert(self.tensor(2).len() == decoder_plan::codec_len(2));
        assert(self.tensor(3).len() == decoder_plan::codec_len(3));
        assert(self.tensor(4).len() == decoder_plan::codec_len(4));
        assert(self.tensor(5).len() == decoder_plan::codec_len(5));
        assert(self.tensor(94).len() == decoder_plan::codec_len(94));
        assert(self.tensor(95).len() == decoder_plan::codec_len(95));
        assert(self.tensor(96).len() == decoder_plan::codec_len(96));
        assert(self.tensor(119).len() == decoder_plan::codec_len(119));
        assert(self.tensor(120).len() == decoder_plan::codec_len(120));
        assert(self.tensor(233).len() == decoder_plan::codec_len(233));
        assert(self.tensor(234).len() == decoder_plan::codec_len(234));
        assert(self.tensor(235).len() == decoder_plan::codec_len(235));
        assert(self.tensor(236).len() == decoder_plan::codec_len(236));
        self.lemma_conv_fits(w.pre_conv, 2, 512, 1_024, 3, 1);
        self.lemma_conv_fits(w.decoder_input, 119, 1_024, 1_536, 7, 1);
        self.lemma_conv_fits(w.final_conv, 235, 96, 1, 7, 1);
        self.lemma_stage_fits(w.latent_upsample@[0], 0);
        self.lemma_stage_fits(w.latent_upsample@[1], 1);
        self.lemma_block_fits(w.decoder_blocks@[0], 0);
        self.lemma_block_fits(w.decoder_blocks@[1], 1);
        self.lemma_block_fits(w.decoder_blocks@[2], 2);
        self.lemma_block_fits(w.decoder_blocks@[3], 3);
        assert forall|l: int| 0 <= l < 8 implies (
        #[trigger] w.pre_transformer.layers@[l]).fits(config) by {
            let at = 6 + 11 * l;
            assert(self.lends_layer(w.pre_transformer.layers@[l], l));
            assert forall|j: int| 0 <= j < 11 implies #[trigger] self.tensor(at + j).len()
                == decoder_plan::layer_len(j) by {
                assert((11 * l + j) % 11 == j);
                assert(self.tensor(at + j).len() == decoder_plan::codec_len(at + j));
            }
            assert(self.tensor(at + 0).len() == 512);
            assert(self.tensor(at + 1).len() == 524_288);
            assert(self.tensor(at + 2).len() == 524_288);
            assert(self.tensor(at + 3).len() == 524_288);
            assert(self.tensor(at + 4).len() == 524_288);
            assert(self.tensor(at + 5).len() == 512);
            assert(self.tensor(at + 6).len() == 512);
            assert(self.tensor(at + 7).len() == 524_288);
            assert(self.tensor(at + 8).len() == 524_288);
            assert(self.tensor(at + 9).len() == 524_288);
            assert(self.tensor(at + 10).len() == 512);
            assert(config.attention_width() == 1_024);
        }
        assert forall|i: int| 0 <= i < 2 implies {
            &&& (#[trigger] w.latent_upsample@[i]).fits()
            &&& w.latent_upsample@[i].transposed.input_channels == w.channels_before(config, i)
        } by {}
        assert forall|i: int| 0 <= i < 4 implies {
            &&& (#[trigger] w.decoder_blocks@[i]).fits()
            &&& w.decoder_blocks@[i].transposed.input_channels == w.channels_before(config, i + 2)
        } by {}
    }

    /// Scaling by one stride or another of the same size.
    proof fn lemma_scaled(a: int, s: int, k: int)
        ensures
            s == k ==> a * s == a * k,
    {
    }

    /// How many frames the lent decoder has at each stage.
    pub proof fn lemma_lent_frames<'a>(&self, w: CodecDecoderWeights<'a, B::Scalar>, frames: int)
        requires
            self.wf(),
            self.shaped(),
            self.lends(w),
            0 <= frames,
        ensures
            w.frames_after(frames, 6) == frames * 1_920,
            frames * 1_920 <= usize::MAX ==> w.countable(frames),
            (frames + 1) * 1_920 <= usize::MAX ==> w.packet_countable(frames),
    {
        self.lemma_lent_fits(w);
        assert(w.latent_upsample@[0].transposed.stride == 2);
        assert(w.latent_upsample@[1].transposed.stride == 2);
        assert(w.decoder_blocks@[0].transposed.stride == 8);
        assert(w.decoder_blocks@[1].transposed.stride == 5);
        assert(w.decoder_blocks@[2].transposed.stride == 4);
        assert(w.decoder_blocks@[3].transposed.stride == 3);
        Self::lemma_scaled(frames, w.stride_at(0), 2);
        Self::lemma_scaled(frames * 2, w.stride_at(1), 2);
        Self::lemma_scaled(frames * 4, w.stride_at(2), 8);
        Self::lemma_scaled(frames * 32, w.stride_at(3), 5);
        Self::lemma_scaled(frames * 160, w.stride_at(4), 4);
        Self::lemma_scaled(frames * 640, w.stride_at(5), 3);
        assert(w.frames_after(frames, 0) == frames);
        assert(w.frames_after(frames, 1) == frames * 2);
        assert(w.frames_after(frames, 2) == frames * 4);
        assert(w.frames_after(frames, 3) == frames * 32);
        assert(w.frames_after(frames, 4) == frames * 160);
        assert(w.frames_after(frames, 5) == frames * 640);
        assert(w.frames_after(frames, 6) == frames * 1_920);
        if frames * 1_920 <= usize::MAX {
            assert forall|n: int| 0 <= n <= 6 implies #[trigger] w.frames_after(frames, n)
                <= usize::MAX by {
                assert(n == 0 || n == 1 || n == 2 || n == 3 || n == 4 || n == 5 || n == 6);
            }
        }
        if (frames + 1) * 1_920 <= usize::MAX {
            assert(w.latent_upsample@[0].transposed.keep() == 0);
            assert(w.latent_upsample@[1].transposed.keep() == 0);
            assert(w.decoder_blocks@[0].transposed.keep() == 1);
            assert(w.decoder_blocks@[1].transposed.keep() == 1);
            assert(w.decoder_blocks@[2].transposed.keep() == 1);
            assert(w.decoder_blocks@[3].transposed.keep() == 1);
            assert forall|i: int| 0 <= i < 2 implies (
            #[trigger] w.latent_upsample@[i]).transposed.countable(w.frames_after(frames, i)) by {
                assert(i == 0 || i == 1);
            }
            assert forall|i: int| 0 <= i < 4 implies (
            #[trigger] w.decoder_blocks@[i]).transposed.countable(
                w.frames_after(frames, i + 2),
            ) by {
                let t = w.decoder_blocks@[i].transposed;
                let frames_in = w.frames_after(frames, i + 2);
                assert(i == 0 || i == 1 || i == 2 || i == 3);
                assert(frames_in == frames * 4 || frames_in == frames * 32 || frames_in == frames
                    * 160 || frames_in == frames * 640);
                Self::lemma_scaled(t.keep() + frames_in, t.stride as int, 8);
                Self::lemma_scaled(t.keep() + frames_in, t.stride as int, 5);
                Self::lemma_scaled(t.keep() + frames_in, t.stride as int, 4);
                Self::lemma_scaled(t.keep() + frames_in, t.stride as int, 3);
            }
        }
    }

    /// Whatever a decoder is lent as has one geometry.
    proof fn lemma_lent_alike<'a>(
        &self,
        a: CodecDecoderWeights<'a, B::Scalar>,
        b: CodecDecoderWeights<'a, B::Scalar>,
    )
        requires
            self.lends(a),
            self.lends(b),
        ensures
            decoder::same_geometry(a, b),
    {
        assert forall|i: int| 0 <= i < 2 implies decoder::same_transposed(
            (#[trigger] a.latent_upsample@[i]).transposed,
            b.latent_upsample@[i].transposed,
        ) by {
            assert(self.lends_stage(a.latent_upsample@[i], i));
            assert(self.lends_stage(b.latent_upsample@[i], i));
        }
        assert forall|i: int| 0 <= i < 4 implies {
            &&& decoder::same_transposed(
                (#[trigger] a.decoder_blocks@[i]).transposed,
                b.decoder_blocks@[i].transposed,
            )
            &&& forall|j: int|
                0 <= j < 3 ==> {
                    &&& decoder::same_conv(
                        (#[trigger] a.decoder_blocks@[i].residual_units@[j]).first_conv,
                        b.decoder_blocks@[i].residual_units@[j].first_conv,
                    )
                    &&& decoder::same_conv(
                        a.decoder_blocks@[i].residual_units@[j].second_conv,
                        b.decoder_blocks@[i].residual_units@[j].second_conv,
                    )
                }
        } by {
            assert(self.lends_block(a.decoder_blocks@[i], i));
            assert(self.lends_block(b.decoder_blocks@[i], i));
        }
    }

    /// What the lent quantizer accepts: whole frames, and the codes of the shipped codebooks.
    proof fn lemma_lent_quantizer<'a>(&self, q: SplitResidualVectorQuantizer<'a, B>)
        requires
            self.wf(),
            self.shaped(),
            self.lends_quantizer(q),
        ensures
            forall|n: int, frames: int| #[trigger]
                q.layout_fits(self.geometry(), n, frames, frames * 512) == (n == frames * 16),
            forall|codes: Seq<i32>, g: int|
                0 <= g < 16 ==> #[trigger] q.code_fits(self.geometry(), codes, g) == (0 <= codes[g]
                    < CODEBOOK_SIZE),
    {
        self.lemma_wf();
        assert(self.tensor(0).len() == decoder_plan::codec_len(0));
        assert(self.tensor(1).len() == decoder_plan::codec_len(1));
        assert(shipped_book(self.book(0)));
        assert forall|codes: Seq<i32>, g: int| 0 <= g < 16 implies #[trigger] q.code_fits(
            self.geometry(),
            codes,
            g,
        ) == (0 <= codes[g] < CODEBOOK_SIZE) by {
            assert(shipped_book(self.book(g)));
            if g > 0 {
                assert(q.rest_codebooks@[g - 1] == self.book(g - 1 + 1));
            }
        }
    }

    /// Codes are refused exactly where they are not acceptable.
    proof fn lemma_accepted<'a>(
        &self,
        q: SplitResidualVectorQuantizer<'a, B>,
        codes: Seq<i32>,
        frames: int,
    )
        requires
            self.wf(),
            self.shaped(),
            self.lends_quantizer(q),
            0 <= frames,
        ensures
            ({
                let grid = rows::unstack(codes, frames, 16);
                let config = self.geometry();
                &&& q.layout_fits(config, codes.len() as int, frames, frames * 512) == (codes.len()
                    == frames * 16)
                &&& q.layout_fits(config, codes.len() as int, frames, frames * 512) && (forall|
                    f: int,
                |
                    0 <= f < frames ==> q.frame_fits(config, #[trigger] grid[f])) ==> acceptable(
                    codes,
                    frames,
                )
                &&& forall|frame: int, group: int| #[trigger]
                    q.stopped_at(config, grid, frame, group) ==> !acceptable(codes, frames)
            }),
    {
        let grid = rows::unstack(codes, frames, 16);
        let config = self.geometry();
        self.lemma_wf();
        self.lemma_lent_quantizer(q);
        assert(q.layout_fits(config, codes.len() as int, frames, frames * 512) == (codes.len()
            == frames * 16));
        if q.layout_fits(config, codes.len() as int, frames, frames * 512) && (forall|f: int|
            0 <= f < frames ==> q.frame_fits(config, #[trigger] grid[f])) {
            assert forall|f: int, g: int| 0 <= f < frames && 0 <= g < 16 implies 0
                <= #[trigger] grid[f][g] < CODEBOOK_SIZE by {
                assert(q.frame_fits(config, grid[f]));
                assert(q.code_fits(config, grid[f], g));
            }
        }
        assert forall|frame: int, group: int| #[trigger]
            q.stopped_at(config, grid, frame, group) implies !acceptable(codes, frames) by {
            assert(!q.code_fits(config, grid[frame], group));
            assert(!(0 <= grid[frame][group] < CODEBOOK_SIZE));
        }
    }

    /// Whether every tensor is as long as its place in the decoder asks for.
    pub fn has_expected_shapes(&self) -> (fits: bool)
        requires
            self.wf(),
        ensures
            fits == self.shaped(),
    {
        for i in 0..CODEC_TENSORS
            invariant
                self.wf(),
                forall|j: int|
                    0 <= j < i ==> (#[trigger] self.tensor(j)).len() == decoder_plan::codec_len(j),
        {
            if self.slice(i).len() != codec_tensor_len(i) {
                proof {
                    assert(self.tensor(i as int).len() != decoder_plan::codec_len(i as int));
                }
                return false;
            }
        }
        true
    }

    /// Decodes a whole code stream.
    pub fn decode(&self, codes: &[i32], frames: usize) -> (result: Result<
        Vec<B::Scalar>,
        CheckpointError,
    >)
        requires
            self.wf(),
            self.shaped(),
            frames * 1_920 <= usize::MAX,
        ensures
            self.decodes(codes@, frames as int, result),
            (result is Ok) == acceptable(codes@, frames as int),
            (result matches Err(CheckpointError::Codec(CodecError::CodeLayout))) == (codes@.len()
                != frames * 16),
            result matches Ok(samples) ==> samples@.len() == frames * 1_920,
    {
        let layers = self.layers();
        let weights = self.decoder_weights(layers.as_slice());
        let quantizer = self.quantizer();
        proof {
            self.lemma_lent_fits(weights);
            self.lemma_lent_frames(weights, frames as int);
            self.lemma_accepted(quantizer, codes@, frames as int);
        }
        match decode_codec_offline::<B>(self.config, quantizer, &weights, codes, frames) {
            Ok(samples) => Ok(samples),
            Err(error) => Err(CheckpointError::Codec(error)),
        }
    }

    /// A fresh state for decoding packet by packet.
    pub fn stream_state(&self) -> (state: CodecStreamingState<B>)
        requires
            self.wf(),
            self.shaped(),
        ensures
            self.streams(state),
            state.context() == decoder::no_decoder_context::<B::Scalar>(8),
    {
        let layers = self.layers();
        let weights = self.decoder_weights(layers.as_slice());
        proof {
            self.lemma_lent_fits(weights);
        }
        let state = CodecStreamingState::<B>::new(self.config, &weights);
        proof {
            assert forall|w: CodecDecoderWeights<'_, B::Scalar>| #[trigger]
                self.lends(w) implies state.serves(w) by {
                self.lemma_lent_alike(weights, w);
                state.lemma_serves_by_geometry(weights, w);
            }
        }
        state
    }

    /// Decodes one packet and appends its samples.
    pub fn stream_push(
        &self,
        state: &mut CodecStreamingState<B>,
        codes: &[i32],
        frames: usize,
        output: &mut Vec<B::Scalar>,
    ) -> (result: Result<(), CheckpointError>)
        requires
            self.wf(),
            self.shaped(),
            self.streams(*old(state)),
            frames > 0,
            (frames + 1) * 1_920 <= usize::MAX,
            old(state).context().frames_seen + frames <= usize::MAX,
        ensures
            self.streams(*final(state)),
            (result is Ok) == acceptable(codes@, frames as int),
            (result matches Err(CheckpointError::Codec(CodecError::CodeLayout))) == (codes@.len()
                != frames * 16),
            match result {
                Ok(()) => {
                    &&& final(state).context().frames_seen == old(state).context().frames_seen
                        + frames
                    &&& final(output)@.len() == old(output)@.len() + frames * 1_920
                    &&& self.pushes(
                        old(state).context(),
                        old(output)@,
                        codes@,
                        frames as int,
                        final(state).context(),
                        final(output)@,
                    )
                },
                Err(CheckpointError::Codec(error)) => {
                    &&& final(output)@ == old(output)@
                    &&& *final(state) == *old(state)
                    &&& exists|q: SplitResidualVectorQuantizer<'_, B>|
                        {
                            let grid = rows::unstack(codes@, frames as int, 16);
                            let config = self.geometry();
                            &&& #[trigger] self.lends_quantizer(q)
                            &&& match error {
                                CodecError::CodeLayout => !q.layout_fits(
                                    config,
                                    codes@.len() as int,
                                    frames as int,
                                    frames * 512,
                                ),
                                CodecError::InvalidCode { frame, group, code } => {
                                    &&& q.stopped_at(config, grid, frame as int, group as int)
                                    &&& code == grid[frame as int][group as int]
                                },
                                _ => false,
                            }
                        }
                },
                Err(_) => false,
            },
    {
        let layers = self.layers();
        let weights = self.decoder_weights(layers.as_slice());
        let quantizer = self.quantizer();
        proof {
            self.lemma_lent_fits(weights);
            self.lemma_lent_frames(weights, frames as int);
            self.lemma_accepted(quantizer, codes@, frames as int);
            assert(state.serves(weights));
        }
        let mut packet: Vec<B::Scalar> = Vec::new();
        let result = state.push(quantizer, &weights, codes, frames, &mut packet);
        proof {
            assert forall|w: CodecDecoderWeights<'_, B::Scalar>| #[trigger]
                self.lends(w) implies state.serves(w) by {
                self.lemma_lent_alike(weights, w);
                state.lemma_serves_by_geometry(weights, w);
            }
        }
        match result {
            Ok(()) => {
                append_row(output, packet.as_slice());
                Ok(())
            },
            Err(error) => Err(CheckpointError::Codec(error)),
        }
    }

    /// Hydrates from a parsed file, as from a store over it.
    pub fn load_from_file(file: &TensorFile<B::Scalar>, label: &str) -> (result: Result<
        Self,
        CheckpointError,
    >)
        ensures
            exists|asked: Requests<FileStore<'_, B>, B::Scalar>|
                {
                    &&& #[trigger] asked.follows(FileStore(file), FileStore(file), label@)
                    &&& asked.yields::<B>(result)
                },
    {
        let mut store: FileStore<'_, B> = FileStore(file);
        let result = Self::load_from_store(&mut store, label);
        proof {
            let asked = choose|asked: Requests<FileStore<'_, B>, B::Scalar>|
                {
                    &&& #[trigger] asked.follows(FileStore(file), store, label@)
                    &&& asked.yields::<B>(result)
                };
            lemma_file_stays(asked, label@, asked.replies.len() as int);
            assert(asked.follows(FileStore(file), FileStore(file), label@));
        }
        result
    }

    /// Hydrates from a store: the codebooks first, then every other tensor in order.
    ///
    /// The first tensor that the store does not hand over, or codebook that cannot be
    /// materialized, is the error, and nothing is asked for behind it.
    pub fn load_from_store<T: TensorStore<B::Scalar>>(store: &mut T, label: &str) -> (result: Result<
        Self,
        CheckpointError,
    >)
        ensures
            exists|asked: Requests<T, B::Scalar>|
                {
                    &&& #[trigger] asked.follows(*old(store), *final(store), label@)
                    &&& asked.yields::<B>(result)
                },
    {
        let ghost mut asked = Requests::<T, B::Scalar> {
            stores: seq![*store],
            replies: Seq::empty(),
        };
        let mut books: Vec<MaterializedCodebook<B>> = Vec::new();
        for k in 0..BOOK_COUNT
            invariant
                asked.follows(*old(store), *store, label@),
                asked.replies.len() == 2 * k,
                asked.filled(2 * k),
                books@.len() == k,
                forall|i: int| 0 <= i < k ==> #[trigger] asked.makes::<B>(i, books@[i]),
        {
            let ghost start = asked;
            let ghost made = books@;
            let prefix = book_name(k);
            let sum_name = join(prefix.as_str(), ".embedding_sum");
            let ghost before = *store;
            let reply = store.take_widened(label, sum_name.as_str());
            proof {
                asked.lemma_asked(*old(store), before, *store, label@, store::reply_of(reply));
                asked = asked.extended(*store, store::reply_of(reply));
            }
            let sum = match reply {
                Ok(sum) => sum,
                Err(error) => {
                    return Err(error);
                },
            };
            let usage_name = join(prefix.as_str(), ".cluster_usage");
            let ghost before = *store;
            let reply = store.take_widened(label, usage_name.as_str());
            proof {
                asked.lemma_asked(*old(store), before, *store, label@, store::reply_of(reply));
                asked = asked.extended(*store, store::reply_of(reply));
            }
            let usage = match reply {
                Ok(usage) => usage,
                Err(error) => {
                    return Err(error);
                },
            };
            match MaterializedCodebook::<B>::from_unnormalized(
                sum.as_slice(),
                usage.as_slice(),
                CODEBOOK_SIZE,
                CODEBOOK_DIM,
            ) {
                Ok(book) => {
                    books.push(book);
                },
                Err(error) => {
                    return Err(CheckpointError::Codec(error));
                },
            }
            proof {
                assert(asked.makes::<B>(k as int, books@[k as int]));
                assert forall|i: int| 0 <= i < k implies #[trigger] asked.makes::<B>(
                    i,
                    books@[i],
                ) by {
                    assert(start.makes::<B>(i, made[i]));
                    start.lemma_kept::<B>(asked, i, made[i]);
                }
            }
        }
        let mut tensors: Vec<Vec<B::Scalar>> = Vec::new();
        for i in 0..CODEC_TENSORS
            invariant
                asked.follows(*old(store), *store, label@),
                asked.replies.len() == 2 * BOOK_COUNT + i,
                asked.filled(2 * BOOK_COUNT + i),
                books@.len() == BOOK_COUNT,
                forall|k: int| 0 <= k < BOOK_COUNT ==> #[trigger] asked.makes::<B>(k, books@[k]),
                tensors@.len() == i,
                forall|j: int|
                    0 <= j < i ==> Ok::<Seq<B::Scalar>, CheckpointError>((#[trigger] tensors@[j])@)
                        == asked.replies[2 * BOOK_COUNT + j],
        {
            let name = codec_tensor_name(i);
            let ghost start = asked;
            let ghost before = *store;
            let reply = store.take_widened(label, name.as_str());
            proof {
                asked.lemma_asked(*old(store), before, *store, label@, store::reply_of(reply));
                asked = asked.extended(*store, store::reply_of(reply));
            }
            match reply {
                Ok(values) => {
                    tensors.push(values);
                },
                Err(error) => {
                    return Err(error);
                },
            }
            proof {
                assert forall|k: int| 0 <= k < BOOK_COUNT implies #[trigger] asked.makes::<B>(
                    k,
                    books@[k],
                ) by {
                    assert(start.makes::<B>(k, books@[k]));
                    start.lemma_kept::<B>(asked, k, books@[k]);
                }
            }
        }
        let ghost made = books@;
        proof {
            assert forall|k: int| 0 <= k < BOOK_COUNT implies shipped_book(
                #[trigger] made[k],
            ) by {
                assert(asked.makes::<B>(k, made[k]));
            }
        }
        let first_codebook = books.remove(0);
        let checkpoint = Self::assemble(first_codebook, books, tensors);
        proof {
            assert forall|k: int| 0 <= k < BOOK_COUNT implies #[trigger] checkpoint.book(k)
                == made[k] by {
                if k > 0 {
                    assert(books@[k - 1] == checkpoint.book(k - 1 + 1));
                }
            }
            assert forall|k: int| 0 <= k < BOOK_COUNT implies asked.makes::<B>(
                k,
                #[trigger] checkpoint.book(k),
            ) by {
                assert(asked.makes::<B>(k, made[k]));
            }
        }
        Ok(checkpoint)
    }

    /// A checkpoint from its codebooks and its other tensors, in order.
    pub fn assemble(
        first_codebook: MaterializedCodebook<B>,
        rest_codebooks: Vec<MaterializedCodebook<B>>,
        tensors: Vec<Vec<B::Scalar>>,
    ) -> (checkpoint: Self)
        requires
            shipped_book(first_codebook),
            rest_codebooks@.len() == 15,
            forall|i: int| 0 <= i < 15 ==> shipped_book(#[trigger] rest_codebooks@[i]),
            tensors@.len() == CODEC_TENSORS,
        ensures
            checkpoint.wf(),
            arith::pure::<B>() ==> checkpoint.standard(),
            checkpoint.book(0) == first_codebook,
            forall|i: int| 0 <= i < 15 ==> #[trigger] rest_codebooks@[i] == checkpoint.book(i + 1),
            forall|i: int|
                0 <= i < CODEC_TENSORS ==> #[trigger] checkpoint.tensor(i) == tensors@[i]@,
    {
        CodecCheckpoint {
            config: default_codec_config::<B>(),
            first_codebook,
            rest_codebooks,
            tensors,
        }
    }
}

/// A store over a file is the same after every request.
proof fn lemma_file_stays<'a, B: Bits>(
    asked: Requests<FileStore<'a, B>, B::Scalar>,
    label: Seq<char>,
    n: int,
)
    requires
        0 <= n <= asked.replies.len(),
        forall|i: int| 0 <= i < asked.replies.len() ==> #[trigger] asked.asks(i, label),
    ensures
        asked.stores[n] == asked.stores[0],
    decreases n,
{
    if n > 0 {
        lemma_file_stays(asked, label, n - 1);
        assert(asked.asks(n - 1, label));
    }
}

/// Codebooks of the decoder: one of the semantic group, and one per acoustic group.
pub const BOOK_COUNT: usize = 16;

/// Where a codebook stands in a checkpoint.
pub open spec fn book_name_of(k: int) -> Seq<char> {
    if k == 0 {
        "decoder.quantizer.rvq_first.vq.layers.0._codebook"@
    } else {
        "decoder.quantizer.rvq_rest.vq.layers."@ + text::decimal_of((k - 1) as nat)
            + "._codebook"@
    }
}

/// Where a codebook stands in a checkpoint.
fn book_name(k: usize) -> (name: String)
    ensures
        name@ == book_name_of(k as int),
{
    if k == 0 {
        String::from_str("decoder.quantizer.rvq_first.vq.layers.0._codebook")
    } else {
        join_number("decoder.quantizer.rvq_rest.vq.layers.", k - 1, "._codebook")
    }
}

/// The tensor that request `i` is for: the sums and the usage of every codebook, then every other
/// tensor.
pub open spec fn request_of(i: int) -> Seq<char> {
    if i < 2 * BOOK_COUNT {
        book_name_of(i / 2) + if i % 2 == 0 {
            ".embedding_sum"@
        } else {
            ".cluster_usage"@
        }
    } else {
        decoder_plan::codec_name(i - 2 * BOOK_COUNT)
    }
}

/// That sums and usage have the shape of a codebook.
pub open spec fn book_shaped<S>(sum: Seq<S>, usage: Seq<S>) -> bool {
    sum.len() == CODEBOOK_SIZE * CODEBOOK_DIM && usage.len() == CODEBOOK_SIZE
}

/// Requests to a store, what each was answered, and the store before and after each.
pub struct Requests<T, S> {
    /// The store, before the first request and after every one.
    pub stores: Seq<T>,
    /// The answers.
    pub replies: Seq<Result<Seq<S>, CheckpointError>>,
}

impl<T: TensorStore<S>, S> Requests<T, S> {
    /// That request `i` was made of the store it found.
    pub open spec fn asks(&self, i: int, label: Seq<char>) -> bool {
        self.stores[i].answers(self.stores[i + 1], label, request_of(i), self.replies[i])
    }

    /// That the requests were made in order, from one store to another.
    pub open spec fn follows(&self, from: T, to: T, label: Seq<char>) -> bool {
        &&& self.stores.len() == self.replies.len() + 1
        &&& self.stores[0] == from
        &&& self.stores.last() == to
        &&& forall|i: int| 0 <= i < self.replies.len() ==> #[trigger] self.asks(i, label)
    }

    /// That the first `n` requests were filled.
    pub open spec fn filled(&self, n: int) -> bool {
        forall|i: int| 0 <= i < n ==> (#[trigger] self.replies[i]) is Ok
    }

    /// The answer to request `i`.
    pub open spec fn answer(&self, i: int) -> Seq<S> {
        self.replies[i]->Ok_0
    }

    /// That the answers for codebook `k` make `book`.
    pub open spec fn makes<B: Bits<Scalar = S>>(&self, k: int, book: MaterializedCodebook<B>) -> bool {
        let sum = self.answer(2 * k);
        let usage = self.answer(2 * k + 1);
        &&& book_shaped(sum, usage)
        &&& book.wf()
        &&& book.size() == CODEBOOK_SIZE
        &&& book.width() == CODEBOOK_DIM
        &&& arith::pure::<B>() ==> forall|r: int|
            0 <= r < CODEBOOK_SIZE ==> {
                &&& arith::chk::<B>(Check::Finite, #[trigger] usage[r])
                &&& book.entry(r) == quantizer::entry_of::<B>(sum, usage, CODEBOOK_DIM as int, r)
            }
    }

    /// That the answers for codebook `k` make no codebook, and `error` says why: they have other
    /// shapes, or a usage count is not finite.
    pub open spec fn spoils<B: Bits<Scalar = S>>(&self, k: int, error: CheckpointError) -> bool {
        let usage = self.answer(2 * k + 1);
        if !book_shaped(self.answer(2 * k), usage) {
            error == CheckpointError::Codec(CodecError::CodebookShape)
        } else {
            error matches CheckpointError::Codec(CodecError::NonFiniteClusterUsage { row }) && row
                < CODEBOOK_SIZE && (arith::pure::<B>() ==> !arith::chk::<B>(
                Check::Finite,
                usage[row as int],
            ) && forall|r: int|
                0 <= r < row ==> arith::chk::<B>(Check::Finite, #[trigger] usage[r]))
        }
    }

    /// That the answers give `result`: a checkpoint of every codebook and tensor where all requests
    /// were filled, and otherwise the first refusal, or the first codebook that cannot be made.
    pub open spec fn yields<B: Bits<Scalar = S>>(
        &self,
        result: Result<CodecCheckpoint<B>, CheckpointError>,
    ) -> bool {
        let n = self.replies.len() as int;
        match result {
            Ok(checkpoint) => {
                &&& n == 2 * BOOK_COUNT + CODEC_TENSORS
                &&& self.filled(n)
                &&& checkpoint.wf()
                &&& arith::pure::<B>() ==> checkpoint.standard()
                &&& forall|k: int|
                    0 <= k < BOOK_COUNT ==> self.makes::<B>(k, #[trigger] checkpoint.book(k))
                &&& forall|i: int|
                    0 <= i < CODEC_TENSORS ==> #[trigger] checkpoint.tensor(i) == self.answer(
                        2 * BOOK_COUNT + i,
                    )
            },
            Err(error) => {
                ||| n > 0 && self.filled(n - 1) && self.replies[n - 1] == Err::<
                    Seq<S>,
                    CheckpointError,
                >(error)
                ||| 0 < n <= 2 * BOOK_COUNT && n % 2 == 0 && self.filled(n) && self.spoils::<B>(
                    n / 2 - 1,
                    error,
                )
            },
        }
    }

    /// The requests with one more.
    pub open spec fn extended(&self, next: T, reply: Result<Seq<S>, CheckpointError>) -> Self {
        Requests { stores: self.stores.push(next), replies: self.replies.push(reply) }
    }

    /// Further requests leave a codebook as it was made.
    proof fn lemma_kept<B: Bits<Scalar = S>>(
        &self,
        more: Self,
        k: int,
        book: MaterializedCodebook<B>,
    )
        requires
            0 <= k,
            2 * k + 1 < self.replies.len() <= more.replies.len(),
            forall|i: int|
                0 <= i < self.replies.len() ==> #[trigger] more.replies[i] == self.replies[i],
            self.makes::<B>(k, book),
        ensures
            more.makes::<B>(k, book),
    {
        assert(more.replies[2 * k] == self.replies[2 * k]);
        assert(more.replies[2 * k + 1] == self.replies[2 * k + 1]);
    }

    /// One more request that the store answered follows those before it.
    proof fn lemma_asked(
        &self,
        from: T,
        before: T,
        after: T,
        label: Seq<char>,
        reply: Result<Seq<S>, CheckpointError>,
    )
        requires
            self.follows(from, before, label),
            before.answers(after, label, request_of(self.replies.len() as int), reply),
        ensures
            self.extended(after, reply).follows(from, after, label),
    {
        let more = self.extended(after, reply);
        assert forall|i: int| 0 <= i < more.replies.len() implies #[trigger] more.asks(i, label) by {
            if i < self.replies.len() {
                assert(self.asks(i, label));
            }
        }
    }
}

} // verus!
