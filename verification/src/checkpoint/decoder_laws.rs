//! What holds across the calls on a codec checkpoint.
use vstd::prelude::*;
use crate::arith;
use crate::checkpoint::decoder::CodecCheckpoint;
use crate::checkpoint::decoder_plan;
use crate::checkpoint::CheckpointError;
use crate::codec::decoder;
use crate::codec::decoder::{CodecDecoderWeights, DecoderContext};
use crate::codec::laws;
use crate::codec::quantizer::SplitResidualVectorQuantizer;
use crate::codec::stages::{
    CausalConvWeights, CausalTransposeConvWeights, CodecDecoderBlockWeights,
    CodecResidualUnitWeights, CodecUpsampleStageWeights,
};
use crate::codec::transformer::CodecTransformerLayerWeights;
use crate::codec::CodecError;
use crate::rows;
use crate::storage::Bits;

verus! {

/// Slices that hold the same are equal.
proof fn lemma_same_slice<T>(a: &[T], b: &[T])
    requires
        a@ == b@,
    ensures
        a == b,
{
    assert(a =~= b);
}

impl<B: Bits> CodecCheckpoint<B> {
    /// A convolution is lent as one value.
    proof fn lemma_one_conv<'a>(
        &self,
        a: CausalConvWeights<'a, B::Scalar>,
        b: CausalConvWeights<'a, B::Scalar>,
        i: int,
        input: int,
        output: int,
        kernel: int,
        dilation: int,
    )
        requires
            self.lends_conv(a, i, input, output, kernel, dilation),
            self.lends_conv(b, i, input, output, kernel, dilation),
        ensures
            a == b,
    {
        lemma_same_slice(a.weight, b.weight);
        lemma_same_slice(a.bias, b.bias);
    }

    /// A transposed convolution is lent as one value.
    proof fn lemma_one_transposed<'a>(
        &self,
        a: CausalTransposeConvWeights<'a, B::Scalar>,
        b: CausalTransposeConvWeights<'a, B::Scalar>,
        i: int,
        input: int,
        output: int,
        kernel: int,
        stride: int,
    )
        requires
            self.lends_transposed(a, i, input, output, kernel, stride),
            self.lends_transposed(b, i, input, output, kernel, stride),
        ensures
            a == b,
    {
        lemma_same_slice(a.weight, b.weight);
        lemma_same_slice(a.bias, b.bias);
    }

    /// A transformer layer is lent as one value.
    proof fn lemma_one_layer<'a>(
        &self,
        a: CodecTransformerLayerWeights<'a, B::Scalar>,
        b: CodecTransformerLayerWeights<'a, B::Scalar>,
        l: int,
    )
        requires
            self.lends_layer(a, l),
            self.lends_layer(b, l),
        ensures
            a == b,
    {
        lemma_same_slice(a.input_layernorm, b.input_layernorm);
        lemma_same_slice(a.q_proj, b.q_proj);
        lemma_same_slice(a.k_proj, b.k_proj);
        lemma_same_slice(a.v_proj, b.v_proj);
        lemma_same_slice(a.o_proj, b.o_proj);
        lemma_same_slice(a.self_attn_layer_scale, b.self_attn_layer_scale);
        lemma_same_slice(a.post_attention_layernorm, b.post_attention_layernorm);
        lemma_same_slice(a.gate_proj, b.gate_proj);
        lemma_same_slice(a.up_proj, b.up_proj);
        lemma_same_slice(a.down_proj, b.down_proj);
        lemma_same_slice(a.mlp_layer_scale, b.mlp_layer_scale);
    }

    /// A latent stage is lent as one value.
    proof fn lemma_one_stage<'a>(
        &self,
        a: CodecUpsampleStageWeights<'a, B::Scalar>,
        b: CodecUpsampleStageWeights<'a, B::Scalar>,
        s: int,
    )
        requires
            self.lends_stage(a, s),
            self.lends_stage(b, s),
        ensures
            a == b,
    {
        self.lemma_one_transposed(a.transposed, b.transposed, 97 + 11 * s, 1_024, 1_024, 2, 2);
        lemma_same_slice(a.convnext.depthwise_weight, b.convnext.depthwise_weight);
        lemma_same_slice(a.convnext.depthwise_bias, b.convnext.depthwise_bias);
        lemma_same_slice(a.convnext.norm_weight, b.convnext.norm_weight);
        lemma_same_slice(a.convnext.norm_bias, b.convnext.norm_bias);
        lemma_same_slice(a.convnext.pwconv1, b.convnext.pwconv1);
        lemma_same_slice(a.convnext.pwconv1_bias, b.convnext.pwconv1_bias);
        lemma_same_slice(a.convnext.pwconv2, b.convnext.pwconv2);
        lemma_same_slice(a.convnext.pwconv2_bias, b.convnext.pwconv2_bias);
        lemma_same_slice(a.convnext.gamma, b.convnext.gamma);
    }

    /// A residual unit is lent as one value.
    proof fn lemma_one_unit<'a>(
        &self,
        a: CodecResidualUnitWeights<'a, B::Scalar>,
        b: CodecResidualUnitWeights<'a, B::Scalar>,
        i: int,
        channels: int,
        dilation: int,
    )
        requires
            self.lends_unit(a, i, channels, dilation),
            self.lends_unit(b, i, channels, dilation),
        ensures
            a == b,
    {
        lemma_same_slice(a.first_alpha_log, b.first_alpha_log);
        lemma_same_slice(a.first_beta_log, b.first_beta_log);
        self.lemma_one_conv(a.first_conv, b.first_conv, i + 2, channels, channels, 7, dilation);
        lemma_same_slice(a.second_alpha_log, b.second_alpha_log);
        lemma_same_slice(a.second_beta_log, b.second_beta_log);
        self.lemma_one_conv(a.second_conv, b.second_conv, i + 6, channels, channels, 1, 1);
    }

    /// A waveform block is lent as one value.
    proof fn lemma_one_block<'a>(
        &self,
        a: CodecDecoderBlockWeights<'a, B::Scalar>,
        b: CodecDecoderBlockWeights<'a, B::Scalar>,
        n: int,
    )
        requires
            self.lends_block(a, n),
            self.lends_block(b, n),
        ensures
            a == b,
    {
        let at = 121 + 28 * n;
        let input = decoder_plan::block_input(n);
        let stride = decoder_plan::block_stride(n);
        let output = input / 2;
        lemma_same_slice(a.alpha_log, b.alpha_log);
        lemma_same_slice(a.beta_log, b.beta_log);
        self.lemma_one_transposed(
            a.transposed,
            b.transposed,
            at + 2,
            input,
            output,
            2 * stride,
            stride,
        );
        self.lemma_one_unit(a.residual_units@[0], b.residual_units@[0], at + 4, output, 1);
        self.lemma_one_unit(a.residual_units@[1], b.residual_units@[1], at + 12, output, 3);
        self.lemma_one_unit(a.residual_units@[2], b.residual_units@[2], at + 20, output, 9);
        assert(a.residual_units@ =~= b.residual_units@);
        assert(a.residual_units =~= b.residual_units);
    }

    /// However often a checkpoint lends its decoder, it lends the same one.
    pub proof fn law_one_decoder_is_lent<'a>(
        &self,
        a: CodecDecoderWeights<'a, B::Scalar>,
        b: CodecDecoderWeights<'a, B::Scalar>,
    )
        requires
            self.lends(a),
            self.lends(b),
        ensures
            a == b,
    {
        self.lemma_one_conv(a.pre_conv, b.pre_conv, 2, 512, 1_024, 3, 1);
        lemma_same_slice(a.pre_transformer.input_proj, b.pre_transformer.input_proj);
        lemma_same_slice(a.pre_transformer.input_proj_bias, b.pre_transformer.input_proj_bias);
        assert forall|l: int| 0 <= l < 8 implies #[trigger] a.pre_transformer.layers@[l]
            == b.pre_transformer.layers@[l] by {
            self.lemma_one_layer(a.pre_transformer.layers@[l], b.pre_transformer.layers@[l], l);
        }
        assert(a.pre_transformer.layers@ =~= b.pre_transformer.layers@);
        lemma_same_slice(a.pre_transformer.layers, b.pre_transformer.layers);
        lemma_same_slice(a.pre_transformer.final_norm, b.pre_transformer.final_norm);
        lemma_same_slice(a.pre_transformer.output_proj, b.pre_transformer.output_proj);
        lemma_same_slice(a.pre_transformer.output_proj_bias, b.pre_transformer.output_proj_bias);
        self.lemma_one_stage(a.latent_upsample@[0], b.latent_upsample@[0], 0);
        self.lemma_one_stage(a.latent_upsample@[1], b.latent_upsample@[1], 1);
        assert(a.latent_upsample@ =~= b.latent_upsample@);
        assert(a.latent_upsample =~= b.latent_upsample);
        self.lemma_one_conv(a.decoder_input, b.decoder_input, 119, 1_024, 1_536, 7, 1);
        self.lemma_one_block(a.decoder_blocks@[0], b.decoder_blocks@[0], 0);
        self.lemma_one_block(a.decoder_blocks@[1], b.decoder_blocks@[1], 1);
        self.lemma_one_block(a.decoder_blocks@[2], b.decoder_blocks@[2], 2);
        self.lemma_one_block(a.decoder_blocks@[3], b.decoder_blocks@[3], 3);
        assert(a.decoder_blocks@ =~= b.decoder_blocks@);
        assert(a.decoder_blocks =~= b.decoder_blocks);
        lemma_same_slice(a.final_alpha_log, b.final_alpha_log);
        lemma_same_slice(a.final_beta_log, b.final_beta_log);
        self.lemma_one_conv(a.final_conv, b.final_conv, 235, 96, 1, 7, 1);
    }

    /// However often a checkpoint lends its quantizer, it lends the same one.
    pub proof fn law_one_quantizer_is_lent<'a>(
        &self,
        a: SplitResidualVectorQuantizer<'a, B>,
        b: SplitResidualVectorQuantizer<'a, B>,
    )
        requires
            self.lends_quantizer(a),
            self.lends_quantizer(b),
        ensures
            a == b,
    {
        assert forall|i: int| 0 <= i < 15 implies #[trigger] a.rest_codebooks@[i]
            == b.rest_codebooks@[i] by {
            assert(a.rest_codebooks@[i] == self.book(i + 1));
        }
        assert(a.rest_codebooks@ =~= b.rest_codebooks@);
        lemma_same_slice(a.rest_codebooks, b.rest_codebooks);
        lemma_same_slice(a.first_output_proj, b.first_output_proj);
        lemma_same_slice(a.rest_output_proj, b.rest_output_proj);
    }

    /// That packets of codes were pushed one after another into a fresh state: `outputs` is the
    /// output before, between and after them, and `contexts` what the state retained.
    pub open spec fn streamed(
        &self,
        packets: Seq<Seq<i32>>,
        frames: Seq<int>,
        outputs: Seq<Seq<B::Scalar>>,
        contexts: Seq<DecoderContext<B::Scalar>>,
    ) -> bool {
        &&& frames.len() == packets.len()
        &&& outputs.len() == packets.len() + 1
        &&& contexts.len() == packets.len() + 1
        &&& contexts[0] == decoder::no_decoder_context::<B::Scalar>(8)
        &&& forall|i: int|
            0 <= i < packets.len() ==> {
                &&& 0 < frames[i]
                &&& self.pushes(
                    contexts[i],
                    outputs[i],
                    #[trigger] packets[i],
                    frames[i],
                    contexts[i + 1],
                    outputs[i + 1],
                )
            }
    }

    /// Streamed output is the output of decoding the same codes at once, whatever the packets:
    /// where they were taken the whole decode succeeds, and its samples are what they have
    /// appended.
    pub proof fn law_streamed_output_is_decoded_output(
        &self,
        packets: Seq<Seq<i32>>,
        frames: Seq<int>,
        outputs: Seq<Seq<B::Scalar>>,
        contexts: Seq<DecoderContext<B::Scalar>>,
        total: int,
        result: Result<Vec<B::Scalar>, CheckpointError>,
    )
        requires
            arith::pure::<B>(),
            self.wf(),
            self.shaped(),
            self.streamed(packets, frames, outputs, contexts),
            packets.flatten().len() == total * 16,
            self.decodes(packets.flatten(), total, result),
        ensures
            result matches Ok(samples) && outputs.last() == outputs[0] + samples@,
    {
        let config = self.geometry();
        let (w, q) = choose|
            w: CodecDecoderWeights<'_, B::Scalar>,
            q: SplitResidualVectorQuantizer<'_, B>,
        |
            {
                &&& #[trigger] self.lends(w)
                &&& #[trigger] self.lends_quantizer(q)
                &&& match result {
                    Ok(samples) => decoder::decoded_whole::<B>(
                        config,
                        q,
                        w,
                        packets.flatten(),
                        total,
                        Ok(samples),
                    ),
                    Err(CheckpointError::Codec(error)) => decoder::decoded_whole::<B>(
                        config,
                        q,
                        w,
                        packets.flatten(),
                        total,
                        Err(error),
                    ),
                    Err(_) => false,
                }
            };
        self.lemma_wf();
        self.lemma_lent_fits(w);
        let outs = self.outs_of(w, q, packets, frames, contexts);
        self.lemma_streamed(w, q, packets, frames, outputs, contexts);
        assert forall|i: int| 0 <= i < outs.len() implies #[trigger] outputs[i + 1] == outputs[i]
            + outs[i] by {
            let packet = packets[i];
            self.lemma_pushed(
                w,
                q,
                contexts[i],
                outputs[i],
                packet,
                frames[i],
                contexts[i + 1],
                outputs[i + 1],
            );
        }
        assert(*q.first_codebook == self.book(0));
        assert(self.tensor(0).len() == decoder_plan::codec_len(0));
        assert(self.tensor(1).len() == decoder_plan::codec_len(1));
        let whole: Result<Vec<B::Scalar>, CodecError> = match result {
            Ok(samples) => Ok(samples),
            Err(CheckpointError::Codec(error)) => Err(error),
            Err(_) => Err(CodecError::CodeLayout),
        };
        laws::law_packets_decode_the_stream::<B>(
            config,
            q,
            w,
            packets,
            frames,
            outs,
            contexts,
            total,
            whole,
        );
        lemma_appended(outputs, outs, packets.len() as int);
        assert(outs.take(packets.len() as int) =~= outs);
    }

    /// The samples of one packet.
    spec fn out_of<'a>(
        &self,
        w: CodecDecoderWeights<'a, B::Scalar>,
        q: SplitResidualVectorQuantizer<'a, B>,
        before: DecoderContext<B::Scalar>,
        codes: Seq<i32>,
        frames: int,
    ) -> Seq<B::Scalar> {
        let latents = q.latents_of(self.geometry(), rows::unstack(codes, frames, 16));
        w.emitted::<B>(self.geometry(), before, latents).flatten()
    }

    /// The samples of every packet.
    spec fn outs_of<'a>(
        &self,
        w: CodecDecoderWeights<'a, B::Scalar>,
        q: SplitResidualVectorQuantizer<'a, B>,
        packets: Seq<Seq<i32>>,
        frames: Seq<int>,
        contexts: Seq<DecoderContext<B::Scalar>>,
    ) -> Seq<Seq<B::Scalar>> {
        Seq::new(
            packets.len(),
            |i: int| self.out_of(w, q, contexts[i], packets[i], frames[i]),
        )
    }

    /// Packets pushed into a fresh state were streamed through the decoder that is lent.
    proof fn lemma_streamed<'a>(
        &self,
        w: CodecDecoderWeights<'a, B::Scalar>,
        q: SplitResidualVectorQuantizer<'a, B>,
        packets: Seq<Seq<i32>>,
        frames: Seq<int>,
        outputs: Seq<Seq<B::Scalar>>,
        contexts: Seq<DecoderContext<B::Scalar>>,
    )
        requires
            arith::pure::<B>(),
            self.wf(),
            self.lends(w),
            self.lends_quantizer(q),
            self.streamed(packets, frames, outputs, contexts),
        ensures
            laws::streamed::<B>(
                self.geometry(),
                q,
                w,
                packets,
                frames,
                self.outs_of(w, q, packets, frames, contexts),
                contexts,
            ),
    {
        let config = self.geometry();
        let outs = self.outs_of(w, q, packets, frames, contexts);
        self.lemma_wf();
        assert forall|i: int| 0 <= i < packets.len() implies laws::pushed::<B>(
            config,
            q,
            w,
            #[trigger] packets[i],
            frames[i],
            outs[i],
            contexts[i],
            contexts[i + 1],
        ) by {
            self.lemma_pushed(
                w,
                q,
                contexts[i],
                outputs[i],
                packets[i],
                frames[i],
                contexts[i + 1],
                outputs[i + 1],
            );
        }
    }

    /// What a packet led to, over the decoder and the quantizer that are lent.
    proof fn lemma_pushed<'a>(
        &self,
        w: CodecDecoderWeights<'a, B::Scalar>,
        q: SplitResidualVectorQuantizer<'a, B>,
        before: DecoderContext<B::Scalar>,
        output: Seq<B::Scalar>,
        codes: Seq<i32>,
        frames: int,
        after: DecoderContext<B::Scalar>,
        extended: Seq<B::Scalar>,
    )
        requires
            arith::pure::<B>(),
            self.wf(),
            self.lends(w),
            self.lends_quantizer(q),
            self.pushes(before, output, codes, frames, after, extended),
        ensures
            codes.len() == frames * 16,
            laws::rows_fit::<B>(self.geometry(), q, rows::unstack(codes, frames, 16)),
            extended == output + self.out_of(w, q, before, codes, frames),
            after == w.retained::<B>(
                self.geometry(),
                before,
                q.latents_of(self.geometry(), rows::unstack(codes, frames, 16)),
            ),
    {
        let config = self.geometry();
        let grid = rows::unstack(codes, frames, 16);
        let (v, p) = choose|
            v: CodecDecoderWeights<'_, B::Scalar>,
            p: SplitResidualVectorQuantizer<'_, B>,
        |
            {
                &&& #[trigger] self.lends(v)
                &&& #[trigger] self.lends_quantizer(p)
                &&& p.layout_fits(config, codes.len() as int, frames, frames * 512)
                &&& forall|f: int| 0 <= f < frames ==> p.frame_fits(config, #[trigger] grid[f])
                &&& arith::pure::<B>() ==> {
                    let latents = p.latents_of(config, grid);
                    &&& extended == output + v.emitted::<B>(config, before, latents).flatten()
                    &&& after == v.retained::<B>(config, before, latents)
                }
            };
        self.law_one_decoder_is_lent(v, w);
        self.law_one_quantizer_is_lent(p, q);
        self.lemma_wf();
    }
}

/// What was appended packet by packet was appended end to end.
proof fn lemma_appended<T>(outputs: Seq<Seq<T>>, outs: Seq<Seq<T>>, n: int)
    requires
        outputs.len() == outs.len() + 1,
        0 <= n <= outs.len(),
        forall|i: int| 0 <= i < outs.len() ==> #[trigger] outputs[i + 1] == outputs[i] + outs[i],
    ensures
        outputs[n] == outputs[0] + outs.take(n).flatten(),
    decreases n,
{
    if n == 0 {
        assert(outs.take(0) =~= Seq::<Seq<T>>::empty());
        assert(outputs[0] + Seq::<T>::empty() =~= outputs[0]);
    } else {
        lemma_appended(outputs, outs, n - 1);
        assert(outs.take(n) =~= outs.take(n - 1).push(outs[n - 1]));
        outs.take(n - 1).lemma_flatten_push(outs[n - 1]);
        assert(outputs[n - 1 + 1] == outputs[n - 1] + outs[n - 1]);
        assert(outputs[n] =~= outputs[0] + (outs.take(n - 1).flatten() + outs[n - 1]));
    }
}

} // verus!
