//! The complete decoder: whole-sequence and packet by packet.
use vstd::prelude::*;
use crate::arith;
use crate::arith::{Arithmetic, Unary};
use crate::codec::quantizer::SplitResidualVectorQuantizer;
use crate::codec::stages;
use crate::codec::stages::{
    snake_rows, BlockContext, CausalConvWeights, CausalTransposeConvWeights,
    CodecDecoderBlockStream, CodecDecoderBlockWeights, CodecUpsampleStageStream,
    CodecUpsampleStageWeights, UpsampleContext,
};
use crate::codec::streams::CausalConvStream;
use crate::codec::transformer;
use crate::codec::transformer::{
    transform_rows, CodecKvCache, CodecPreTransformerWeights,
};
use crate::codec::{CodecConfig, CodecError};
use crate::kernels;
use crate::kernels::{map_each, KvRows};
use crate::rows;
use crate::rows::join_rows;

verus! {

/// Latent upsampling stages.
pub const LATENT_STAGES: usize = 2;

/// Waveform upsampling blocks.
pub const WAVEFORM_BLOCKS: usize = 4;

/// Complete borrowed decoder weights after the quantizer.
#[derive(Clone, Copy, Debug)]
pub struct CodecDecoderWeights<'a, S> {
    /// Convolution before the transformer.
    pub pre_conv: CausalConvWeights<'a, S>,
    /// The pre-transformer.
    pub pre_transformer: CodecPreTransformerWeights<'a, S>,
    /// The latent upsampling stages.
    pub latent_upsample: [CodecUpsampleStageWeights<'a, S>; 2],
    /// Convolution before the waveform blocks.
    pub decoder_input: CausalConvWeights<'a, S>,
    /// The waveform blocks.
    pub decoder_blocks: [CodecDecoderBlockWeights<'a, S>; 4],
    /// Final SnakeBeta's `alpha` logarithms.
    pub final_alpha_log: &'a [S],
    /// Final SnakeBeta's `beta` logarithms.
    pub final_beta_log: &'a [S],
    /// Convolution to one channel.
    pub final_conv: CausalConvWeights<'a, S>,
}

/// Everything the decoder retains between packets.
pub struct DecoderContext<S> {
    /// Frames decoded so far.
    pub frames_seen: int,
    /// Input frames of the first convolution.
    pub pre_conv: Seq<Seq<S>>,
    /// Cached keys and values of every transformer layer.
    pub caches: Seq<KvRows<S>>,
    /// What each latent stage retains.
    pub stages: Seq<UpsampleContext<S>>,
    /// Input frames of the convolution before the waveform blocks.
    pub decoder_input: Seq<Seq<S>>,
    /// What each waveform block retains.
    pub blocks: Seq<BlockContext<S>>,
    /// Input frames of the last convolution.
    pub final_conv: Seq<Seq<S>>,
}

/// A decoder that has seen nothing.
pub open spec fn no_decoder_context<S>(layers: int) -> DecoderContext<S> {
    DecoderContext {
        frames_seen: 0,
        pre_conv: Seq::empty(),
        caches: transformer::no_caches::<S>(layers),
        stages: Seq::new(2, |i: int| stages::no_upsample_context::<S>()),
        decoder_input: Seq::empty(),
        blocks: Seq::new(4, |i: int| stages::no_block_context::<S>()),
        final_conv: Seq::empty(),
    }
}

/// Every sample of every row clamped into `[-1, 1]`.
pub open spec fn clamped<A: Arithmetic>(x: Seq<Seq<A::Scalar>>) -> Seq<Seq<A::Scalar>> {
    Seq::new(x.len(), |t: int| kernels::map::<A>(Unary::ClampUnit, x[t]))
}

impl<'a, S: Copy> CodecDecoderWeights<'a, S> {
    /// Channels that reach transposed convolution `i`.
    pub open spec fn channels_before(&self, config: CodecConfig<S>, i: int) -> int {
        if i == 0 {
            config.transformer_latent_dim as int
        } else if i < 2 {
            self.latent_upsample@[i - 1].transposed.output_channels as int
        } else if i == 2 {
            self.decoder_input.output_channels as int
        } else {
            self.decoder_blocks@[i - 3].transposed.output_channels as int
        }
    }

    /// That every weight has its shape and every stage feeds the next.
    pub open spec fn fits(&self, config: CodecConfig<S>) -> bool {
        &&& self.pre_conv.fits()
        &&& self.pre_conv.input_channels == config.codec_latent_dim
        &&& self.pre_conv.output_channels == config.transformer_latent_dim
        &&& self.pre_transformer.fits(config)
        &&& forall|i: int|
            0 <= i < 2 ==> {
                &&& (#[trigger] self.latent_upsample@[i]).fits()
                &&& self.latent_upsample@[i].transposed.input_channels == self.channels_before(
                    config,
                    i,
                )
            }
        &&& self.decoder_input.fits()
        &&& self.decoder_input.input_channels
            == self.latent_upsample@[1].transposed.output_channels
        &&& forall|i: int|
            0 <= i < 4 ==> {
                &&& (#[trigger] self.decoder_blocks@[i]).fits()
                &&& self.decoder_blocks@[i].transposed.input_channels == self.channels_before(
                    config,
                    i + 2,
                )
            }
        &&& self.final_alpha_log@.len() == self.decoder_blocks@[3].transposed.output_channels
        &&& self.final_beta_log@.len() == self.decoder_blocks@[3].transposed.output_channels
        &&& self.final_conv.fits()
        &&& self.final_conv.input_channels
            == self.decoder_blocks@[3].transposed.output_channels
        &&& self.final_conv.output_channels == 1
        &&& config.attention_width() <= usize::MAX
    }

    /// That no stage has an empty frame, so that each can be streamed.
    pub open spec fn streamable(&self) -> bool {
        &&& self.pre_conv.input_channels > 0
        &&& forall|i: int|
            0 <= i < 2 ==> {
                &&& (#[trigger] self.latent_upsample@[i]).transposed.input_channels > 0
                &&& self.latent_upsample@[i].transposed.output_channels > 0
            }
        &&& self.decoder_input.input_channels > 0
        &&& forall|i: int|
            0 <= i < 4 ==> {
                &&& (#[trigger] self.decoder_blocks@[i]).transposed.input_channels > 0
                &&& self.decoder_blocks@[i].transposed.output_channels > 0
                &&& forall|j: int|
                    0 <= j < 3 ==> (
                    #[trigger] self.decoder_blocks@[i].residual_units@[j]).second_conv.input_channels
                        > 0
            }
        &&& self.final_conv.input_channels > 0
    }

    /// Output frames per input frame of transposed convolution `i`.
    pub open spec fn stride_at(&self, i: int) -> int {
        if i < 2 {
            self.latent_upsample@[i].transposed.stride as int
        } else {
            self.decoder_blocks@[i - 2].transposed.stride as int
        }
    }

    /// Frames after the first `n` transposed convolutions.
    pub open spec fn frames_after(&self, frames: int, n: int) -> int
        decreases n,
    {
        if n <= 0 {
            frames
        } else {
            self.frames_after(frames, n - 1) * self.stride_at(n - 1)
        }
    }

    /// That the frames at every stage can be counted.
    pub open spec fn countable(&self, frames: int) -> bool {
        forall|n: int| 0 <= n <= 6 ==> #[trigger] self.frames_after(frames, n) <= usize::MAX
    }

    /// That the frames at every stage of a packet can be counted, whatever the streams retain.
    pub open spec fn packet_countable(&self, frames: int) -> bool {
        &&& forall|i: int|
            0 <= i < 2 ==> (#[trigger] self.latent_upsample@[i]).transposed.countable(
                self.frames_after(frames, i),
            )
        &&& forall|i: int|
            0 <= i < 4 ==> (#[trigger] self.decoder_blocks@[i]).transposed.countable(
                self.frames_after(frames, i + 2),
            )
    }

    /// The first `n` latent stages over a whole sequence.
    pub open spec fn latent_whole<A: Arithmetic<Scalar = S>>(
        &self,
        x: Seq<Seq<S>>,
        n: int,
    ) -> Seq<Seq<S>>
        decreases n,
    {
        if n <= 0 {
            x
        } else {
            self.latent_upsample@[n - 1].whole::<A>(self.latent_whole::<A>(x, n - 1))
        }
    }

    /// The first `n` waveform blocks over a whole sequence.
    pub open spec fn blocks_whole<A: Arithmetic<Scalar = S>>(
        &self,
        x: Seq<Seq<S>>,
        n: int,
    ) -> Seq<Seq<S>>
        decreases n,
    {
        if n <= 0 {
            x
        } else {
            self.decoder_blocks@[n - 1].whole::<A>(self.blocks_whole::<A>(x, n - 1))
        }
    }

    /// The transformer's output over a whole sequence of latents.
    pub open spec fn attended<A: Arithmetic<Scalar = S>>(
        &self,
        config: CodecConfig<S>,
        latents: Seq<Seq<S>>,
    ) -> Seq<Seq<S>> {
        transformer::transformed::<A>(
            config,
            self.pre_transformer,
            0,
            self.pre_conv.whole::<A>(latents),
            transformer::no_caches::<S>(self.pre_transformer.layers@.len() as int),
        )
    }

    /// What reaches the waveform blocks over a whole sequence of latents.
    pub open spec fn widened<A: Arithmetic<Scalar = S>>(
        &self,
        config: CodecConfig<S>,
        latents: Seq<Seq<S>>,
    ) -> Seq<Seq<S>> {
        self.decoder_input.whole::<A>(
            self.latent_whole::<A>(self.attended::<A>(config, latents), 2),
        )
    }

    /// What reaches the last convolution over a whole sequence of latents.
    pub open spec fn shaped<A: Arithmetic<Scalar = S>>(
        &self,
        config: CodecConfig<S>,
        latents: Seq<Seq<S>>,
    ) -> Seq<Seq<S>> {
        stages::snake_of::<A>(
            self.blocks_whole::<A>(self.widened::<A>(config, latents), 4),
            self.final_alpha_log@,
            self.final_beta_log@,
        )
    }

    /// The waveform of a whole sequence of latents, one sample per row.
    pub open spec fn whole<A: Arithmetic<Scalar = S>>(
        &self,
        config: CodecConfig<S>,
        latents: Seq<Seq<S>>,
    ) -> Seq<Seq<S>> {
        clamped::<A>(self.final_conv.whole::<A>(self.shaped::<A>(config, latents)))
    }

    /// What the first `n` latent stages emit for a packet.
    pub open spec fn latent_emitted<A: Arithmetic<Scalar = S>>(
        &self,
        contexts: Seq<UpsampleContext<S>>,
        packet: Seq<Seq<S>>,
        n: int,
    ) -> Seq<Seq<S>>
        decreases n,
    {
        if n <= 0 {
            packet
        } else {
            self.latent_upsample@[n - 1].emitted::<A>(
                contexts[n - 1],
                self.latent_emitted::<A>(contexts, packet, n - 1),
            )
        }
    }

    /// What the first `n` waveform blocks emit for a packet.
    pub open spec fn blocks_emitted<A: Arithmetic<Scalar = S>>(
        &self,
        contexts: Seq<BlockContext<S>>,
        packet: Seq<Seq<S>>,
        n: int,
    ) -> Seq<Seq<S>>
        decreases n,
    {
        if n <= 0 {
            packet
        } else {
            self.decoder_blocks@[n - 1].emitted::<A>(
                contexts[n - 1],
                self.blocks_emitted::<A>(contexts, packet, n - 1),
            )
        }
    }

    /// The transformer's output for a packet of latents.
    pub open spec fn attended_packet<A: Arithmetic<Scalar = S>>(
        &self,
        config: CodecConfig<S>,
        context: DecoderContext<S>,
        latents: Seq<Seq<S>>,
    ) -> Seq<Seq<S>> {
        transformer::transformed::<A>(
            config,
            self.pre_transformer,
            context.frames_seen,
            self.pre_conv.emitted::<A>(context.pre_conv, latents),
            context.caches,
        )
    }

    /// What reaches the convolution before the waveform blocks for a packet.
    pub open spec fn raised_packet<A: Arithmetic<Scalar = S>>(
        &self,
        config: CodecConfig<S>,
        context: DecoderContext<S>,
        latents: Seq<Seq<S>>,
    ) -> Seq<Seq<S>> {
        self.latent_emitted::<A>(
            context.stages,
            self.attended_packet::<A>(config, context, latents),
            2,
        )
    }

    /// What reaches the waveform blocks for a packet.
    pub open spec fn widened_packet<A: Arithmetic<Scalar = S>>(
        &self,
        config: CodecConfig<S>,
        context: DecoderContext<S>,
        latents: Seq<Seq<S>>,
    ) -> Seq<Seq<S>> {
        self.decoder_input.emitted::<A>(
            context.decoder_input,
            self.raised_packet::<A>(config, context, latents),
        )
    }

    /// What reaches the last convolution for a packet.
    pub open spec fn shaped_packet<A: Arithmetic<Scalar = S>>(
        &self,
        config: CodecConfig<S>,
        context: DecoderContext<S>,
        latents: Seq<Seq<S>>,
    ) -> Seq<Seq<S>> {
        stages::snake_of::<A>(
            self.blocks_emitted::<A>(
                context.blocks,
                self.widened_packet::<A>(config, context, latents),
                4,
            ),
            self.final_alpha_log@,
            self.final_beta_log@,
        )
    }

    /// What the decoder emits for a packet of latents.
    pub open spec fn emitted<A: Arithmetic<Scalar = S>>(
        &self,
        config: CodecConfig<S>,
        context: DecoderContext<S>,
        latents: Seq<Seq<S>>,
    ) -> Seq<Seq<S>> {
        clamped::<A>(
            self.final_conv.emitted::<A>(
                context.final_conv,
                self.shaped_packet::<A>(config, context, latents),
            ),
        )
    }

    /// What the decoder retains after a packet of latents.
    pub open spec fn retained<A: Arithmetic<Scalar = S>>(
        &self,
        config: CodecConfig<S>,
        context: DecoderContext<S>,
        latents: Seq<Seq<S>>,
    ) -> DecoderContext<S> {
        let first = self.pre_conv.emitted::<A>(context.pre_conv, latents);
        let attended = self.attended_packet::<A>(config, context, latents);
        let widened = self.widened_packet::<A>(config, context, latents);
        DecoderContext {
            frames_seen: context.frames_seen + latents.len(),
            pre_conv: self.pre_conv.retained(context.pre_conv, latents),
            caches: transformer::caches_after::<A>(
                config,
                self.pre_transformer,
                context.frames_seen,
                first,
                context.caches,
                latents.len() as int,
            ),
            stages: Seq::new(
                2,
                |i: int|
                    self.latent_upsample@[i].retained::<A>(
                        context.stages[i],
                        self.latent_emitted::<A>(context.stages, attended, i),
                    ),
            ),
            decoder_input: self.decoder_input.retained(
                context.decoder_input,
                self.raised_packet::<A>(config, context, latents),
            ),
            blocks: Seq::new(
                4,
                |i: int|
                    self.decoder_blocks@[i].retained::<A>(
                        context.blocks[i],
                        self.blocks_emitted::<A>(context.blocks, widened, i),
                    ),
            ),
            final_conv: self.final_conv.retained(
                context.final_conv,
                self.shaped_packet::<A>(config, context, latents),
            ),
        }
    }
}

/// Every sample of every row clamped into `[-1, 1]`.
fn clamp_rows<A: Arithmetic>(x: &Vec<Vec<A::Scalar>>) -> (out: Vec<Vec<A::Scalar>>)
    ensures
        out@.len() == x@.len(),
        forall|i: int| 0 <= i < out@.len() ==> (#[trigger] out@[i])@.len() == x@[i]@.len(),
        arith::pure::<A>() ==> rows::deep(out@) == clamped::<A>(rows::deep(x@)),
{
    let mut out: Vec<Vec<A::Scalar>> = Vec::new();
    for t in 0..x.len()
        invariant
            out@.len() == t,
            forall|i: int| 0 <= i < t ==> (#[trigger] out@[i])@.len() == x@[i]@.len(),
            arith::pure::<A>() ==> forall|i: int|
                0 <= i < t ==> (#[trigger] out@[i])@ == kernels::map::<A>(
                    Unary::ClampUnit,
                    x@[i]@,
                ),
    {
        out.push(map_each::<A>(Unary::ClampUnit, x[t].as_slice()));
    }
    proof {
        if arith::pure::<A>() {
            assert(rows::deep(out@) =~= clamped::<A>(rows::deep(x@)));
        }
    }
    out
}

/// Samples from rows of one sample each.
fn mono<T: Copy>(x: &Vec<Vec<T>>) -> (out: Vec<T>)
    requires
        rows::uniform(rows::deep(x@), 1),
    ensures
        out@ == rows::deep(x@).flatten(),
        out@.len() == x@.len(),
{
    proof {
        rows::lemma_flatten_len(rows::deep(x@), 1);
    }
    join_rows(x)
}

/// Runs rows of latents through the whole graph after the quantizer.
fn decode_latents<'a, A: Arithmetic>(
    config: CodecConfig<A::Scalar>,
    weights: &CodecDecoderWeights<'a, A::Scalar>,
    latents: &Vec<Vec<A::Scalar>>,
) -> (out: Vec<A::Scalar>)
    requires
        weights.fits(config),
        weights.countable(latents@.len() as int),
        rows::uniform(rows::deep(latents@), config.codec_latent_dim as int),
    ensures
        out@.len() == weights.frames_after(latents@.len() as int, 6),
        arith::pure::<A>() ==> out@ == weights.whole::<A>(
            config,
            rows::deep(latents@),
        ).flatten(),
{
    let layers: usize = weights.pre_transformer.layers.len();
    let frames: usize = latents.len();
    let first = weights.pre_conv.forward::<A>(latents);
    let mut caches: Vec<CodecKvCache<A>> = Vec::new();
    for i in 0..layers
        invariant
            config.attention_width() <= usize::MAX,
            caches@.len() == i,
            transformer::all_serve(caches@, config),
            forall|j: int|
                0 <= j < i ==> (#[trigger] caches@[j]).kv()
                    == kernels::no_rows::<A::Scalar>(),
    {
        caches.push(CodecKvCache::<A>::new(config));
    }
    proof {
        assert(transformer::kv_of(caches@) =~= transformer::no_caches::<A::Scalar>(layers as int));
    }
    let mut hidden = transform_rows::<A>(
        config,
        &weights.pre_transformer,
        0,
        &first,
        caches.as_mut_slice(),
    );
    let ghost attended = weights.attended::<A>(config, rows::deep(latents@));
    for i in 0..LATENT_STAGES
        invariant
            weights.fits(config),
            weights.countable(frames as int),
            hidden@.len() == weights.frames_after(frames as int, i as int),
            rows::uniform(
                rows::deep(hidden@),
                if i < 2 {
                    weights.channels_before(config, i as int)
                } else {
                    weights.decoder_input.input_channels as int
                },
            ),
            arith::pure::<A>() ==> rows::deep(hidden@) == weights.latent_whole::<A>(
                attended,
                i as int,
            ),
    {
        proof {
            assert(weights.latent_upsample@[i as int].fits());
            assert(weights.frames_after(frames as int, i + 1) <= usize::MAX);
        }
        let stage = weights.latent_upsample[i];
        hidden = stage.forward::<A>(&hidden);
    }
    let mut hidden = weights.decoder_input.forward::<A>(&hidden);
    let ghost widened = weights.widened::<A>(config, rows::deep(latents@));
    for i in 0..WAVEFORM_BLOCKS
        invariant
            weights.fits(config),
            weights.countable(frames as int),
            hidden@.len() == weights.frames_after(frames as int, i + 2),
            rows::uniform(
                rows::deep(hidden@),
                if i < 4 {
                    weights.channels_before(config, i + 2)
                } else {
                    weights.final_conv.input_channels as int
                },
            ),
            arith::pure::<A>() ==> rows::deep(hidden@) == weights.blocks_whole::<A>(
                widened,
                i as int,
            ),
    {
        proof {
            assert(weights.decoder_blocks@[i as int].fits());
            assert(weights.frames_after(frames as int, i + 3) <= usize::MAX);
        }
        let block = weights.decoder_blocks[i];
        hidden = block.forward::<A>(&hidden);
    }
    let bent = snake_rows::<A>(&hidden, weights.final_alpha_log, weights.final_beta_log);
    let last = weights.final_conv.forward::<A>(&bent);
    let samples = clamp_rows::<A>(&last);
    proof {
        assert forall|i: int| 0 <= i < rows::deep(samples@).len() implies (
        #[trigger] rows::deep(samples@)[i]).len() == 1 by {
            assert(rows::deep(last@)[i].len() == 1);
        }
    }
    mono(&samples)
}

/// That two convolutions have one geometry.
pub open spec fn same_conv<'a, S>(a: CausalConvWeights<'a, S>, b: CausalConvWeights<'a, S>) -> bool {
    &&& a.input_channels == b.input_channels
    &&& a.output_channels == b.output_channels
    &&& a.kernel == b.kernel
    &&& a.dilation == b.dilation
}

/// That two transposed convolutions have one geometry.
pub open spec fn same_transposed<'a, S>(
    a: CausalTransposeConvWeights<'a, S>,
    b: CausalTransposeConvWeights<'a, S>,
) -> bool {
    &&& a.input_channels == b.input_channels
    &&& a.output_channels == b.output_channels
    &&& a.kernel == b.kernel
    &&& a.stride == b.stride
}

/// That two decoders have one geometry, whatever their weights.
pub open spec fn same_geometry<'a, S>(
    a: CodecDecoderWeights<'a, S>,
    b: CodecDecoderWeights<'a, S>,
) -> bool {
    &&& same_conv(a.pre_conv, b.pre_conv)
    &&& a.pre_transformer.layers@.len() == b.pre_transformer.layers@.len()
    &&& forall|i: int|
        0 <= i < 2 ==> same_transposed(
            (#[trigger] a.latent_upsample@[i]).transposed,
            b.latent_upsample@[i].transposed,
        )
    &&& same_conv(a.decoder_input, b.decoder_input)
    &&& forall|i: int|
        0 <= i < 4 ==> {
            &&& same_transposed(
                (#[trigger] a.decoder_blocks@[i]).transposed,
                b.decoder_blocks@[i].transposed,
            )
            &&& forall|j: int|
                0 <= j < 3 ==> {
                    &&& same_conv(
                        (#[trigger] a.decoder_blocks@[i].residual_units@[j]).first_conv,
                        b.decoder_blocks@[i].residual_units@[j].first_conv,
                    )
                    &&& same_conv(
                        a.decoder_blocks@[i].residual_units@[j].second_conv,
                        b.decoder_blocks@[i].residual_units@[j].second_conv,
                    )
                }
        }
    &&& same_conv(a.final_conv, b.final_conv)
}

/// That `result` is what decoding a whole code stream gives: samples where every code is in its
/// codebook, the first code that is not, or a layout that does not fit.
pub open spec fn decoded_whole<'a, 'b, A: Arithmetic>(
    config: CodecConfig<A::Scalar>,
    quantizer: SplitResidualVectorQuantizer<'b, A>,
    weights: CodecDecoderWeights<'a, A::Scalar>,
    codes: Seq<i32>,
    frames: int,
    result: Result<Vec<A::Scalar>, CodecError>,
) -> bool {
    let grid = rows::unstack(codes, frames, config.groups as int);
    &&& !quantizer.layout_fits(
        config,
        codes.len() as int,
        frames,
        frames * config.codec_latent_dim,
    ) <==> result == Err::<Vec<A::Scalar>, CodecError>(CodecError::CodeLayout)
    &&& match result {
        Ok(samples) => {
            &&& forall|f: int| 0 <= f < frames ==> quantizer.frame_fits(config, #[trigger] grid[f])
            &&& samples@.len() == weights.frames_after(frames, 6)
            &&& arith::pure::<A>() ==> samples@ == weights.whole::<A>(
                config,
                quantizer.latents_of(config, grid),
            ).flatten()
        },
        Err(CodecError::CodeLayout) => true,
        Err(CodecError::InvalidCode { frame, group, code }) => {
            &&& quantizer.stopped_at(config, grid, frame as int, group as int)
            &&& code == grid[frame as int][group as int]
        },
        Err(_) => false,
    }
}

/// Decodes an entire code stream to clamped samples.
pub fn decode_codec_offline<'a, 'b, A: Arithmetic>(
    config: CodecConfig<A::Scalar>,
    quantizer: SplitResidualVectorQuantizer<'b, A>,
    weights: &CodecDecoderWeights<'a, A::Scalar>,
    codes: &[i32],
    frames: usize,
) -> (result: Result<Vec<A::Scalar>, CodecError>)
    requires
        quantizer.wf(),
        weights.fits(config),
        weights.countable(frames as int),
        config.groups > 0 || frames == 0,
        frames * config.codec_latent_dim <= usize::MAX,
    ensures
        decoded_whole::<A>(config, quantizer, *weights, codes@, frames as int, result),
{
    if !quantizer.layout_check(
        config,
        codes.len(),
        frames,
        frames * config.codec_latent_dim,
    ) {
        return Err(CodecError::CodeLayout);
    }
    let latents = quantizer.decode_rows(config, codes, frames)?;
    Ok(decode_latents::<A>(config, weights, &latents))
}

/// Stateful decoder for packeted code frames.
///
/// Each call emits all samples made final by the supplied frames. Between calls the state keeps
/// the causal convolution contexts and the bounded attention caches.
pub struct CodecStreamingState<A: Arithmetic> {
    config: CodecConfig<A::Scalar>,
    frames_seen: usize,
    pre_conv: CausalConvStream<A>,
    transformer_caches: Vec<CodecKvCache<A>>,
    latent_upsample: Vec<CodecUpsampleStageStream<A>>,
    decoder_input: CausalConvStream<A>,
    decoder_blocks: Vec<CodecDecoderBlockStream<A>>,
    final_conv: CausalConvStream<A>,
}

impl<A: Arithmetic> CodecStreamingState<A> {
    /// The geometry the state was made for.
    pub closed spec fn config(&self) -> CodecConfig<A::Scalar> {
        self.config
    }

    /// Everything retained between packets.
    pub closed spec fn context(&self) -> DecoderContext<A::Scalar> {
        DecoderContext {
            frames_seen: self.frames_seen as int,
            pre_conv: self.pre_conv.history(),
            caches: transformer::kv_of(self.transformer_caches@),
            stages: Seq::new(
                self.latent_upsample@.len(),
                |i: int| self.latent_upsample@[i].context(),
            ),
            decoder_input: self.decoder_input.history(),
            blocks: Seq::new(
                self.decoder_blocks@.len(),
                |i: int| self.decoder_blocks@[i].context(),
            ),
            final_conv: self.final_conv.history(),
        }
    }

    /// That the state was made for these weights.
    pub closed spec fn serves<'a>(&self, weights: CodecDecoderWeights<'a, A::Scalar>) -> bool {
        &&& weights.pre_conv.drives(self.pre_conv)
        &&& self.transformer_caches@.len() == weights.pre_transformer.layers@.len()
        &&& transformer::all_serve(self.transformer_caches@, self.config)
        &&& self.latent_upsample@.len() == 2
        &&& forall|i: int|
            0 <= i < 2 ==> weights.latent_upsample@[i].drives(#[trigger] self.latent_upsample@[i])
        &&& weights.decoder_input.drives(self.decoder_input)
        &&& self.decoder_blocks@.len() == 4
        &&& forall|i: int|
            0 <= i < 4 ==> weights.decoder_blocks@[i].drives(#[trigger] self.decoder_blocks@[i])
        &&& weights.final_conv.drives(self.final_conv)
    }

    /// One context per stage, each in order.
    pub closed spec fn wf(&self) -> bool {
        &&& self.pre_conv.wf()
        &&& transformer::all_serve(self.transformer_caches@, self.config)
        &&& self.latent_upsample@.len() == 2
        &&& forall|i: int|
            0 <= i < 2 ==> {
                &&& (#[trigger] self.latent_upsample@[i]).transposed.wf()
                &&& self.latent_upsample@[i].convnext.wf()
            }
        &&& self.decoder_input.wf()
        &&& self.decoder_blocks@.len() == 4
        &&& forall|i: int| 0 <= i < 4 ==> (#[trigger] self.decoder_blocks@[i]).wf()
        &&& self.final_conv.wf()
    }

    /// Transformer layers the state keeps a cache for.
    pub closed spec fn layers(&self) -> int {
        self.transformer_caches@.len() as int
    }

    /// A state that serves some weights is in order.
    pub proof fn lemma_serves_wf<'a>(&self, weights: CodecDecoderWeights<'a, A::Scalar>)
        requires
            self.serves(weights),
        ensures
            self.wf(),
            self.layers() == weights.pre_transformer.layers@.len(),
    {
        assert forall|i: int| 0 <= i < 4 implies (#[trigger] self.decoder_blocks@[i]).wf() by {
            assert(weights.decoder_blocks@[i].drives(self.decoder_blocks@[i]));
            assert forall|k: int| 0 <= k < 3 implies {
                &&& (#[trigger] self.decoder_blocks@[i].residual_units@[k]).first_conv.wf()
                &&& self.decoder_blocks@[i].residual_units@[k].second_conv.wf()
            } by {
                assert(weights.decoder_blocks@[i].residual_units@[k].drives(
                    self.decoder_blocks@[i].residual_units@[k],
                ));
            }
        }
        assert forall|i: int| 0 <= i < 2 implies {
            &&& (#[trigger] self.latent_upsample@[i]).transposed.wf()
            &&& self.latent_upsample@[i].convnext.wf()
        } by {
            assert(weights.latent_upsample@[i].drives(self.latent_upsample@[i]));
        }
    }

    /// That two states have one geometry.
    spec fn like(&self, other: &Self) -> bool {
        &&& self.config == other.config
        &&& self.pre_conv.channels() == other.pre_conv.channels()
        &&& self.pre_conv.taps() == other.pre_conv.taps()
        &&& self.pre_conv.spacing() == other.pre_conv.spacing()
        &&& self.transformer_caches@.len() == other.transformer_caches@.len()
        &&& forall|i: int|
            0 <= i < 2 ==> {
                let a = #[trigger] self.latent_upsample@[i];
                let b = other.latent_upsample@[i];
                &&& a.transposed.channels() == b.transposed.channels()
                &&& a.transposed.outputs() == b.transposed.outputs()
                &&& a.transposed.taps() == b.transposed.taps()
                &&& a.transposed.step() == b.transposed.step()
                &&& a.convnext.width() == b.convnext.width()
                &&& a.convnext.taps() == b.convnext.taps()
            }
        &&& self.decoder_input.channels() == other.decoder_input.channels()
        &&& self.decoder_input.taps() == other.decoder_input.taps()
        &&& self.decoder_input.spacing() == other.decoder_input.spacing()
        &&& forall|i: int|
            0 <= i < 4 ==> (#[trigger] self.decoder_blocks@[i]).like(&other.decoder_blocks@[i])
        &&& self.final_conv.channels() == other.final_conv.channels()
        &&& self.final_conv.taps() == other.final_conv.taps()
        &&& self.final_conv.spacing() == other.final_conv.spacing()
    }

    /// A state serves all weights of one geometry alike.
    pub proof fn lemma_serves_by_geometry<'a>(
        &self,
        a: CodecDecoderWeights<'a, A::Scalar>,
        b: CodecDecoderWeights<'a, A::Scalar>,
    )
        requires
            self.serves(a),
            same_geometry(a, b),
        ensures
            self.serves(b),
    {
        assert forall|i: int| 0 <= i < 2 implies b.latent_upsample@[i].drives(
            #[trigger] self.latent_upsample@[i],
        ) by {
            assert(a.latent_upsample@[i].drives(self.latent_upsample@[i]));
        }
        assert forall|i: int| 0 <= i < 4 implies b.decoder_blocks@[i].drives(
            #[trigger] self.decoder_blocks@[i],
        ) by {
            let block = self.decoder_blocks@[i];
            assert(a.decoder_blocks@[i].drives(block));
            assert forall|j: int| 0 <= j < 3 implies b.decoder_blocks@[i].residual_units@[j].drives(
                #[trigger] block.residual_units@[j],
            ) by {
                assert(a.decoder_blocks@[i].residual_units@[j].drives(block.residual_units@[j]));
            }
        }
    }

    /// A state serves whatever weights a state of its geometry serves.
    proof fn lemma_like_serves<'a>(
        &self,
        other: &Self,
        weights: CodecDecoderWeights<'a, A::Scalar>,
    )
        requires
            self.wf(),
            self.like(other),
            other.serves(weights),
        ensures
            self.serves(weights),
    {
        assert forall|i: int| 0 <= i < 2 implies weights.latent_upsample@[i].drives(
            #[trigger] self.latent_upsample@[i],
        ) by {
            assert(weights.latent_upsample@[i].drives(other.latent_upsample@[i]));
        }
        assert forall|i: int| 0 <= i < 4 implies weights.decoder_blocks@[i].drives(
            #[trigger] self.decoder_blocks@[i],
        ) by {
            assert(weights.decoder_blocks@[i].drives(other.decoder_blocks@[i]));
            assert forall|k: int| 0 <= k < 3 implies
                weights.decoder_blocks@[i].residual_units@[k].drives(
                #[trigger] self.decoder_blocks@[i].residual_units@[k],
            ) by {
                assert(weights.decoder_blocks@[i].residual_units@[k].drives(
                    other.decoder_blocks@[i].residual_units@[k],
                ));
            }
        }
    }

    /// Empty state for one decoder, retaining no weights.
    pub fn new<'a>(
        config: CodecConfig<A::Scalar>,
        weights: &CodecDecoderWeights<'a, A::Scalar>,
    ) -> (state: Self)
        requires
            weights.fits(config),
            weights.streamable(),
        ensures
            state.config() == config,
            state.serves(*weights),
            state.wf(),
            state.context() == no_decoder_context::<A::Scalar>(
                weights.pre_transformer.layers@.len() as int,
            ),
    {
        let layers: usize = weights.pre_transformer.layers.len();
        let mut caches: Vec<CodecKvCache<A>> = Vec::new();
        for i in 0..layers
            invariant
                config.attention_width() <= usize::MAX,
                caches@.len() == i,
                transformer::all_serve(caches@, config),
                forall|j: int|
                    0 <= j < i ==> (#[trigger] caches@[j]).kv()
                        == kernels::no_rows::<A::Scalar>(),
        {
            caches.push(CodecKvCache::<A>::new(config));
        }
        let mut upsample: Vec<CodecUpsampleStageStream<A>> = Vec::new();
        for i in 0..LATENT_STAGES
            invariant
                weights.fits(config),
                weights.streamable(),
                upsample@.len() == i,
                forall|j: int|
                    0 <= j < i ==> {
                        &&& weights.latent_upsample@[j].drives(#[trigger] upsample@[j])
                        &&& upsample@[j].context()
                            == stages::no_upsample_context::<A::Scalar>()
                    },
        {
            proof {
                assert(weights.latent_upsample@[i as int].fits());
            }
            let stage = weights.latent_upsample[i];
            upsample.push(stage.stream::<A>());
        }
        let mut blocks: Vec<CodecDecoderBlockStream<A>> = Vec::new();
        for i in 0..WAVEFORM_BLOCKS
            invariant
                weights.fits(config),
                weights.streamable(),
                blocks@.len() == i,
                forall|j: int|
                    0 <= j < i ==> {
                        &&& weights.decoder_blocks@[j].drives(#[trigger] blocks@[j])
                        &&& blocks@[j].context() == stages::no_block_context::<A::Scalar>()
                    },
        {
            proof {
                assert(weights.decoder_blocks@[i as int].fits());
            }
            let block = weights.decoder_blocks[i];
            blocks.push(block.stream::<A>());
        }
        let state = CodecStreamingState {
            config,
            frames_seen: 0,
            pre_conv: weights.pre_conv.stream::<A>(),
            transformer_caches: caches,
            latent_upsample: upsample,
            decoder_input: weights.decoder_input.stream::<A>(),
            decoder_blocks: blocks,
            final_conv: weights.final_conv.stream::<A>(),
        };
        proof {
            let want = no_decoder_context::<A::Scalar>(layers as int);
            assert(state.context().caches =~= want.caches);
            assert(state.context().stages =~= want.stages);
            assert(state.context().blocks =~= want.blocks);
            state.lemma_serves_wf(*weights);
        }
        state
    }

    /// Resets the state for a fresh utterance.
    pub fn clear<'a>(&mut self)
        requires
            old(self).wf(),
        ensures
            final(self).wf(),
            final(self).config() == old(self).config(),
            final(self).layers() == old(self).layers(),
            final(self).context() == no_decoder_context::<A::Scalar>(old(self).layers()),
            forall|weights: CodecDecoderWeights<'a, A::Scalar>| #[trigger]
                old(self).serves(weights) ==> final(self).serves(weights),
    {
        let ghost start = *self;
        self.frames_seen = 0;
        self.pre_conv.clear();
        let layers: usize = self.transformer_caches.len();
        for i in 0..layers
            invariant
                self.wf(),
                self.like(&start),
                layers == self.transformer_caches@.len(),
                self.frames_seen == 0,
                self.pre_conv.history() == Seq::<Seq<A::Scalar>>::empty(),
                forall|j: int|
                    0 <= j < i ==> (#[trigger] self.transformer_caches@[j]).kv()
                        == kernels::no_rows::<A::Scalar>(),
        {
            let ghost before = self.transformer_caches@;
            proof {
                assert(before[i as int].serves(self.config));
            }
            self.transformer_caches[i].clear();
            proof {
                assert forall|j: int| 0 <= j < self.transformer_caches@.len() implies (
                #[trigger] self.transformer_caches@[j]).serves(self.config) by {
                    assert(before[j].serves(self.config));
                }
            }
        }
        for i in 0..LATENT_STAGES
            invariant
                self.wf(),
                self.like(&start),
                layers == self.transformer_caches@.len(),
                self.frames_seen == 0,
                self.pre_conv.history() == Seq::<Seq<A::Scalar>>::empty(),
                forall|j: int|
                    0 <= j < layers ==> (#[trigger] self.transformer_caches@[j]).kv()
                        == kernels::no_rows::<A::Scalar>(),
                forall|j: int|
                    0 <= j < i ==> (#[trigger] self.latent_upsample@[j]).context()
                        == stages::no_upsample_context::<A::Scalar>(),
        {
            self.latent_upsample[i].clear();
        }
        self.decoder_input.clear();
        for i in 0..WAVEFORM_BLOCKS
            invariant
                self.wf(),
                self.like(&start),
                layers == self.transformer_caches@.len(),
                self.frames_seen == 0,
                self.pre_conv.history() == Seq::<Seq<A::Scalar>>::empty(),
                self.decoder_input.history() == Seq::<Seq<A::Scalar>>::empty(),
                forall|j: int|
                    0 <= j < layers ==> (#[trigger] self.transformer_caches@[j]).kv()
                        == kernels::no_rows::<A::Scalar>(),
                forall|j: int|
                    0 <= j < 2 ==> (#[trigger] self.latent_upsample@[j]).context()
                        == stages::no_upsample_context::<A::Scalar>(),
                forall|j: int|
                    0 <= j < i ==> (#[trigger] self.decoder_blocks@[j]).context()
                        == stages::no_block_context::<A::Scalar>(),
        {
            let ghost before = self.decoder_blocks@;
            self.decoder_blocks[i].clear();
            proof {
                assert forall|j: int| 0 <= j < 4 implies (#[trigger] self.decoder_blocks@[j]).like(
                    &start.decoder_blocks@[j],
                ) by {
                    assert(before[j].like(&start.decoder_blocks@[j]));
                }
            }
        }
        self.final_conv.clear();
        proof {
            let want = no_decoder_context::<A::Scalar>(layers as int);
            assert(self.context().caches =~= want.caches);
            assert(self.context().stages =~= want.stages);
            assert(self.context().blocks =~= want.blocks);
            assert forall|weights: CodecDecoderWeights<'a, A::Scalar>| #[trigger]
                start.serves(weights) implies self.serves(weights) by {
                self.lemma_like_serves(&start, weights);
            }
        }
    }

    /// Decodes a nonempty packet of code rows and writes its finished samples to `output`.
    ///
    /// A refused packet leaves the state and the output as they were.
    pub fn push<'a, 'b>(
        &mut self,
        quantizer: SplitResidualVectorQuantizer<'b, A>,
        weights: &CodecDecoderWeights<'a, A::Scalar>,
        codes: &[i32],
        frames: usize,
        output: &mut Vec<A::Scalar>,
    ) -> (result: Result<(), CodecError>)
        requires
            quantizer.wf(),
            old(self).serves(*weights),
            weights.fits(old(self).config()),
            weights.packet_countable(frames as int),
            old(self).config().groups > 0,
            frames > 0,
            frames * old(self).config().codec_latent_dim <= usize::MAX,
            old(self).context().frames_seen + frames <= usize::MAX,
        ensures
            final(self).config() == old(self).config(),
            final(self).serves(*weights),
            final(self).wf(),
            !quantizer.layout_fits(
                old(self).config(),
                codes@.len() as int,
                frames as int,
                frames * old(self).config().codec_latent_dim,
            ) <==> result == Err::<(), CodecError>(CodecError::CodeLayout),
            match result {
                Ok(()) => {
                    &&& forall|f: int|
                        0 <= f < frames ==> quantizer.frame_fits(
                            old(self).config(),
                            #[trigger] rows::unstack(
                                codes@,
                                frames as int,
                                old(self).config().groups as int,
                            )[f],
                        )
                    &&& final(output)@.len() == weights.frames_after(frames as int, 6)
                    &&& final(self).context().frames_seen == old(self).context().frames_seen
                        + frames
                    &&& arith::pure::<A>() ==> {
                        let latents = quantizer.latents_of(
                            old(self).config(),
                            rows::unstack(
                                codes@,
                                frames as int,
                                old(self).config().groups as int,
                            ),
                        );
                        &&& final(output)@ == weights.emitted::<A>(
                            old(self).config(),
                            old(self).context(),
                            latents,
                        ).flatten()
                        &&& final(self).context() == weights.retained::<A>(
                            old(self).config(),
                            old(self).context(),
                            latents,
                        )
                    }
                },
                Err(CodecError::CodeLayout) => *final(self) == *old(self) && final(output)@
                    == old(output)@,
                Err(CodecError::InvalidCode { frame, group, code }) => {
                    &&& *final(self) == *old(self)
                    &&& final(output)@ == old(output)@
                    &&& quantizer.stopped_at(
                        old(self).config(),
                        rows::unstack(
                            codes@,
                            frames as int,
                            old(self).config().groups as int,
                        ),
                        frame as int,
                        group as int,
                    )
                    &&& code == rows::unstack(
                        codes@,
                        frames as int,
                        old(self).config().groups as int,
                    )[frame as int][group as int]
                },
                Err(_) => false,
            },
    {
        let config = self.config;
        proof {
            self.lemma_serves_wf(*weights);
        }
        if !quantizer.layout_check(
            config,
            codes.len(),
            frames,
            frames * config.codec_latent_dim,
        ) {
            return Err(CodecError::CodeLayout);
        }
        let latents = quantizer.decode_rows(config, codes, frames)?;
        let samples = self.push_latents(weights, &latents);
        *output = samples;
        Ok(())
    }

    /// One packet of latents through every stage.
    fn push_latents<'a>(
        &mut self,
        weights: &CodecDecoderWeights<'a, A::Scalar>,
        latents: &Vec<Vec<A::Scalar>>,
    ) -> (out: Vec<A::Scalar>)
        requires
            old(self).serves(*weights),
            weights.fits(old(self).config()),
            weights.packet_countable(latents@.len() as int),
            rows::uniform(rows::deep(latents@), old(self).config().codec_latent_dim as int),
            old(self).context().frames_seen + latents@.len() <= usize::MAX,
        ensures
            final(self).config() == old(self).config(),
            final(self).serves(*weights),
            final(self).wf(),
            final(self).context().frames_seen == old(self).context().frames_seen + latents@.len(),
            out@.len() == weights.frames_after(latents@.len() as int, 6),
            arith::pure::<A>() ==> {
                &&& out@ == weights.emitted::<A>(
                    old(self).config(),
                    old(self).context(),
                    rows::deep(latents@),
                ).flatten()
                &&& final(self).context() == weights.retained::<A>(
                    old(self).config(),
                    old(self).context(),
                    rows::deep(latents@),
                )
            },
    {
        let config = self.config;
        let frames: usize = latents.len();
        let ghost context = self.context();
        let ghost packet = rows::deep(latents@);
        let ghost next = weights.retained::<A>(config, context, packet);
        let first = weights.pre_conv.push::<A>(&mut self.pre_conv, latents);
        let mut hidden = transform_rows::<A>(
            config,
            &weights.pre_transformer,
            self.frames_seen,
            &first,
            self.transformer_caches.as_mut_slice(),
        );
        self.frames_seen = self.frames_seen + frames;
        let ghost attended = weights.attended_packet::<A>(config, context, packet);
        for i in 0..LATENT_STAGES
            invariant
                self.serves(*weights),
                self.config() == config,
                weights.fits(config),
                weights.packet_countable(frames as int),
                next == weights.retained::<A>(config, context, packet),
                attended == weights.attended_packet::<A>(config, context, packet),
                self.frames_seen == context.frames_seen + frames,
                self.decoder_input.history() == context.decoder_input,
                self.final_conv.history() == context.final_conv,
                forall|j: int|
                    0 <= j < 4 ==> (#[trigger] self.decoder_blocks@[j]).context()
                        == context.blocks[j],
                forall|j: int|
                    i <= j < 2 ==> (#[trigger] self.latent_upsample@[j]).context()
                        == context.stages[j],
                hidden@.len() == weights.frames_after(frames as int, i as int),
                rows::uniform(
                    rows::deep(hidden@),
                    if i < 2 {
                        weights.channels_before(config, i as int)
                    } else {
                        weights.decoder_input.input_channels as int
                    },
                ),
                arith::pure::<A>() ==> {
                    &&& self.pre_conv.history() == next.pre_conv
                    &&& transformer::kv_of(self.transformer_caches@) == next.caches
                    &&& rows::deep(hidden@) == weights.latent_emitted::<A>(
                        context.stages,
                        attended,
                        i as int,
                    )
                    &&& forall|j: int|
                        0 <= j < i ==> (#[trigger] self.latent_upsample@[j]).context()
                            == next.stages[j]
                },
        {
            let ghost before = self.latent_upsample@;
            proof {
                assert(weights.latent_upsample@[i as int].fits());
                assert(weights.latent_upsample@[i as int].drives(before[i as int]));
            }
            let stage = weights.latent_upsample[i];
            hidden = stage.push::<A>(&mut self.latent_upsample[i], &hidden);
            proof {
                assert forall|j: int| 0 <= j < 2 implies weights.latent_upsample@[j].drives(
                    #[trigger] self.latent_upsample@[j],
                ) by {
                    assert(weights.latent_upsample@[j].drives(before[j]));
                }
            }
        }
        let mut hidden = weights.decoder_input.push::<A>(&mut self.decoder_input, &hidden);
        let ghost widened = weights.widened_packet::<A>(config, context, packet);
        for i in 0..WAVEFORM_BLOCKS
            invariant
                self.serves(*weights),
                self.config() == config,
                weights.fits(config),
                weights.packet_countable(frames as int),
                next == weights.retained::<A>(config, context, packet),
                widened == weights.widened_packet::<A>(config, context, packet),
                self.frames_seen == context.frames_seen + frames,
                self.final_conv.history() == context.final_conv,
                forall|j: int|
                    i <= j < 4 ==> (#[trigger] self.decoder_blocks@[j]).context()
                        == context.blocks[j],
                hidden@.len() == weights.frames_after(frames as int, i + 2),
                rows::uniform(
                    rows::deep(hidden@),
                    if i < 4 {
                        weights.channels_before(config, i + 2)
                    } else {
                        weights.final_conv.input_channels as int
                    },
                ),
                arith::pure::<A>() ==> {
                    &&& self.pre_conv.history() == next.pre_conv
                    &&& transformer::kv_of(self.transformer_caches@) == next.caches
                    &&& self.decoder_input.history() == next.decoder_input
                    &&& forall|j: int|
                        0 <= j < 2 ==> (#[trigger] self.latent_upsample@[j]).context()
                            == next.stages[j]
                    &&& rows::deep(hidden@) == weights.blocks_emitted::<A>(
                        context.blocks,
                        widened,
                        i as int,
                    )
                    &&& forall|j: int|
                        0 <= j < i ==> (#[trigger] self.decoder_blocks@[j]).context()
                            == next.blocks[j]
                },
        {
            let ghost before = self.decoder_blocks@;
            proof {
                assert(weights.decoder_blocks@[i as int].fits());
                assert(weights.decoder_blocks@[i as int].drives(before[i as int]));
            }
            let block = weights.decoder_blocks[i];
            hidden = block.push::<A>(&mut self.decoder_blocks[i], &hidden);
            proof {
                assert forall|j: int| 0 <= j < 4 implies weights.decoder_blocks@[j].drives(
                    #[trigger] self.decoder_blocks@[j],
                ) by {
                    assert(weights.decoder_blocks@[j].drives(before[j]));
                }
            }
        }
        let bent = snake_rows::<A>(&hidden, weights.final_alpha_log, weights.final_beta_log);
        let last = weights.final_conv.push::<A>(&mut self.final_conv, &bent);
        let samples = clamp_rows::<A>(&last);
        proof {
            self.lemma_serves_wf(*weights);
            assert forall|i: int| 0 <= i < rows::deep(samples@).len() implies (
            #[trigger] rows::deep(samples@)[i]).len() == 1 by {
                assert(rows::deep(last@)[i].len() == 1);
            }
            if arith::pure::<A>() {
                assert(self.context().stages =~= next.stages);
                assert(self.context().blocks =~= next.blocks);
            }
        }
        mono(&samples)
    }
}

} // verus!
