//! Packet schedules cannot be heard.
//!
//! For every stage: the output over a sequence followed by a packet is the output over the
//! sequence followed by what a stream that has seen the sequence emits for the packet, and the
//! stream is then where a stream that has seen both is. Stage by stage this carries up to the
//! decoder, and packet by packet to every schedule.
use vstd::prelude::*;
use crate::arith;
use crate::arith::Arithmetic;
use crate::codec::conv;
use crate::codec::conv_laws;
use crate::codec::decoder;
use crate::codec::decoder::{CodecDecoderWeights, DecoderContext};
use crate::codec::quantizer::SplitResidualVectorQuantizer;
use crate::codec::stages;
use crate::codec::stages::{
    BlockContext, CausalConvWeights, CausalTransposeConvWeights, CodecConvNextWeights,
    CodecDecoderBlockWeights, CodecResidualUnitWeights, CodecUpsampleStageWeights,
    ResidualContext, UpsampleContext,
};
use crate::codec::transformer;
use crate::codec::{CodecConfig, CodecError};
use crate::rows;

verus! {

/// A sequence split after what a stage emitted for its past.
proof fn lemma_take_skip<T>(x: Seq<T>, n: int)
    requires
        0 <= n <= x.len(),
    ensures
        x == x.take(n) + x.skip(n),
{
    assert(x =~= x.take(n) + x.skip(n));
}

/// A causal convolution over a sequence and a packet.
pub proof fn law_conv_append<'a, A: Arithmetic>(
    weights: CausalConvWeights<'a, A::Scalar>,
    past: Seq<Seq<A::Scalar>>,
    packet: Seq<Seq<A::Scalar>>,
)
    requires
        weights.fits(),
    ensures
        weights.whole::<A>(past + packet) == weights.whole::<A>(past) + weights.emitted::<A>(
            conv::latest(past, weights.keep()),
            packet,
        ),
        weights.retained(conv::latest(past, weights.keep()), packet) == conv::latest(
            past + packet,
            weights.keep(),
        ),
{
    lemma_keep_is_natural(weights);
    conv_laws::law_latest_of_latest(past, packet, weights.keep());
    conv_laws::law_conv_stream_matches::<A>(
        past,
        packet,
        weights.input_channels as int,
        weights.weight@,
        Some(weights.bias@),
        weights.output_channels as int,
        weights.kernel as int,
        weights.dilation as int,
    );
    conv_laws::law_conv_is_causal::<A>(
        past + packet,
        past.len() as int,
        weights.input_channels as int,
        weights.weight@,
        Some(weights.bias@),
        weights.output_channels as int,
        weights.kernel as int,
        weights.dilation as int,
    );
    assert((past + packet).take(past.len() as int) =~= past);
    lemma_take_skip(weights.whole::<A>(past + packet), past.len() as int);
}

/// A causal transposed convolution over a sequence and a packet.
pub proof fn law_transposed_append<'a, A: Arithmetic>(
    weights: CausalTransposeConvWeights<'a, A::Scalar>,
    past: Seq<Seq<A::Scalar>>,
    packet: Seq<Seq<A::Scalar>>,
)
    requires
        weights.fits(),
    ensures
        weights.whole::<A>(past + packet) == weights.whole::<A>(past) + weights.emitted::<A>(
            conv::latest(past, weights.keep()),
            packet,
        ),
        weights.retained(conv::latest(past, weights.keep()), packet) == conv::latest(
            past + packet,
            weights.keep(),
        ),
{
    vstd::arithmetic::div_mod::lemma_div_pos_is_pos(weights.kernel - 1, weights.stride as int);
    conv_laws::law_latest_of_latest(past, packet, weights.keep());
    conv_laws::law_transposed_stream_matches::<A>(
        past,
        packet,
        weights.input_channels as int,
        weights.weight@,
        Some(weights.bias@),
        weights.output_channels as int,
        weights.kernel as int,
        weights.stride as int,
    );
    conv_laws::law_transposed_is_causal::<A>(
        past + packet,
        past.len() as int,
        weights.input_channels as int,
        weights.weight@,
        Some(weights.bias@),
        weights.output_channels as int,
        weights.kernel as int,
        weights.stride as int,
    );
    assert((past + packet).take(past.len() as int) =~= past);
    assert(0 <= past.len() * weights.stride <= (past + packet).len() * weights.stride)
        by (nonlinear_arith)
        requires
            0 <= past.len() <= (past + packet).len(),
            0 < weights.stride,
    ;
    lemma_take_skip(
        weights.whole::<A>(past + packet),
        (past.len() * weights.stride) as int,
    );
}

/// A ConvNeXt block over a sequence and a packet.
pub proof fn law_convnext_append<'a, A: Arithmetic>(
    weights: CodecConvNextWeights<'a, A::Scalar>,
    past: Seq<Seq<A::Scalar>>,
    packet: Seq<Seq<A::Scalar>>,
    channels: int,
)
    ensures
        weights.whole::<A>(past + packet, channels) == weights.whole::<A>(past, channels)
            + weights.emitted::<A>(conv::latest(past, 6), packet, channels),
        weights.retained(conv::latest(past, 6), packet) == conv::latest(past + packet, 6),
{
    conv_laws::law_latest_of_latest(past, packet, 6);
    conv_laws::law_depthwise_stream_matches::<A>(
        past,
        packet,
        channels,
        weights.depthwise_weight@,
        weights.depthwise_bias@,
        7,
    );
    conv_laws::law_depthwise_is_causal::<A>(
        past + packet,
        past.len() as int,
        channels,
        weights.depthwise_weight@,
        weights.depthwise_bias@,
        7,
    );
    let both = past + packet;
    assert(both.take(past.len() as int) =~= past);
    let mixed = weights.mixed::<A>(both, channels);
    let kept = conv::latest(past, 6);
    let tail = weights.mixed::<A>(kept + packet, channels).skip(kept.len() as int);
    assert(tail == mixed.skip(past.len() as int));
    let whole = weights.whole::<A>(both, channels);
    let first = weights.whole::<A>(past, channels);
    let second = weights.emitted::<A>(kept, packet, channels);
    assert forall|t: int| 0 <= t < both.len() implies whole[t] == (first + second)[t] by {
        if t < past.len() {
            assert(mixed.take(past.len() as int)[t] == mixed[t]);
        } else {
            assert(mixed.skip(past.len() as int)[t - past.len()] == mixed[t]);
        }
    }
    assert(whole =~= first + second);
}

/// What an upsampling stage retains after a sequence.
pub open spec fn upsample_after<'a, A: Arithmetic>(
    weights: CodecUpsampleStageWeights<'a, A::Scalar>,
    past: Seq<Seq<A::Scalar>>,
) -> UpsampleContext<A::Scalar> {
    UpsampleContext {
        transposed: conv::latest(past, weights.transposed.keep()),
        mixed: conv::latest(weights.transposed.whole::<A>(past), 6),
    }
}

/// An upsampling stage over a sequence and a packet.
pub proof fn law_upsample_append<'a, A: Arithmetic>(
    weights: CodecUpsampleStageWeights<'a, A::Scalar>,
    past: Seq<Seq<A::Scalar>>,
    packet: Seq<Seq<A::Scalar>>,
)
    requires
        weights.fits(),
    ensures
        weights.whole::<A>(past + packet) == weights.whole::<A>(past) + weights.emitted::<A>(
            upsample_after::<A>(weights, past),
            packet,
        ),
        weights.retained::<A>(upsample_after::<A>(weights, past), packet) == upsample_after::<A>(
            weights,
            past + packet,
        ),
{
    law_transposed_append::<A>(weights.transposed, past, packet);
    law_convnext_append::<A>(
        weights.convnext,
        weights.transposed.whole::<A>(past),
        weights.transposed.emitted::<A>(
            conv::latest(past, weights.transposed.keep()),
            packet,
        ),
        weights.transposed.output_channels as int,
    );
}

/// SnakeBeta works frame by frame.
pub proof fn law_snake_append<A: Arithmetic>(
    past: Seq<Seq<A::Scalar>>,
    packet: Seq<Seq<A::Scalar>>,
    alpha_log: Seq<A::Scalar>,
    beta_log: Seq<A::Scalar>,
)
    ensures
        stages::snake_of::<A>(past + packet, alpha_log, beta_log) == stages::snake_of::<A>(
            past,
            alpha_log,
            beta_log,
        ) + stages::snake_of::<A>(packet, alpha_log, beta_log),
{
    assert(stages::snake_of::<A>(past + packet, alpha_log, beta_log) =~= stages::snake_of::<A>(
        past,
        alpha_log,
        beta_log,
    ) + stages::snake_of::<A>(packet, alpha_log, beta_log));
}

/// What a residual unit retains after a sequence.
pub open spec fn residual_after<'a, A: Arithmetic>(
    weights: CodecResidualUnitWeights<'a, A::Scalar>,
    past: Seq<Seq<A::Scalar>>,
) -> ResidualContext<A::Scalar> {
    let bent = stages::snake_of::<A>(past, weights.first_alpha_log@, weights.first_beta_log@);
    ResidualContext {
        first: conv::latest(bent, weights.first_conv.keep()),
        second: conv::latest(
            stages::snake_of::<A>(
                weights.first_conv.whole::<A>(bent),
                weights.second_alpha_log@,
                weights.second_beta_log@,
            ),
            weights.second_conv.keep(),
        ),
    }
}

/// A residual unit over a sequence and a packet.
pub proof fn law_residual_append<'a, A: Arithmetic>(
    weights: CodecResidualUnitWeights<'a, A::Scalar>,
    past: Seq<Seq<A::Scalar>>,
    packet: Seq<Seq<A::Scalar>>,
)
    requires
        weights.first_conv.fits(),
        weights.second_conv.fits(),
    ensures
        weights.whole::<A>(past + packet) == weights.whole::<A>(past) + weights.emitted::<A>(
            residual_after::<A>(weights, past),
            packet,
        ),
        weights.retained::<A>(residual_after::<A>(weights, past), packet) == residual_after::<A>(
            weights,
            past + packet,
        ),
{
    let a = weights.first_alpha_log@;
    let b = weights.first_beta_log@;
    let c = weights.second_alpha_log@;
    let d = weights.second_beta_log@;
    law_snake_append::<A>(past, packet, a, b);
    let bent = stages::snake_of::<A>(past, a, b);
    let bent_packet = stages::snake_of::<A>(packet, a, b);
    law_conv_append::<A>(weights.first_conv, bent, bent_packet);
    let spread = weights.first_conv.whole::<A>(bent);
    let spread_packet = weights.first_conv.emitted::<A>(
        conv::latest(bent, weights.first_conv.keep()),
        bent_packet,
    );
    law_snake_append::<A>(spread, spread_packet, c, d);
    let again = stages::snake_of::<A>(spread, c, d);
    let again_packet = stages::snake_of::<A>(spread_packet, c, d);
    law_conv_append::<A>(weights.second_conv, again, again_packet);
    let branch = weights.second_conv.whole::<A>(again);
    let branch_packet = weights.second_conv.emitted::<A>(
        conv::latest(again, weights.second_conv.keep()),
        again_packet,
    );
    assert(weights.second_conv.whole::<A>(again + again_packet) == branch + branch_packet);
    assert(branch.len() == past.len());
    assert(weights.whole::<A>(past + packet) =~= weights.whole::<A>(past) + weights.emitted::<A>(
        residual_after::<A>(weights, past),
        packet,
    ));
}

/// What a waveform block retains after a sequence.
pub open spec fn block_after<'a, A: Arithmetic>(
    weights: CodecDecoderBlockWeights<'a, A::Scalar>,
    past: Seq<Seq<A::Scalar>>,
) -> BlockContext<A::Scalar> {
    BlockContext {
        transposed: conv::latest(
            stages::snake_of::<A>(past, weights.alpha_log@, weights.beta_log@),
            weights.transposed.keep(),
        ),
        units: Seq::new(
            3,
            |i: int|
                residual_after::<A>(
                    weights.residual_units@[i],
                    weights.units_whole::<A>(weights.raised::<A>(past), i),
                ),
        ),
    }
}

/// The first units of a waveform block over a sequence and a packet.
proof fn lemma_units_append<'a, A: Arithmetic>(
    weights: CodecDecoderBlockWeights<'a, A::Scalar>,
    past: Seq<Seq<A::Scalar>>,
    packet: Seq<Seq<A::Scalar>>,
    contexts: Seq<ResidualContext<A::Scalar>>,
    n: int,
)
    requires
        weights.fits(),
        0 <= n <= 3,
        contexts.len() == 3,
        forall|i: int|
            0 <= i < 3 ==> #[trigger] contexts[i] == residual_after::<A>(
                weights.residual_units@[i],
                weights.units_whole::<A>(past, i),
            ),
    ensures
        weights.units_whole::<A>(past + packet, n) == weights.units_whole::<A>(past, n)
            + weights.units_emitted::<A>(contexts, packet, n),
    decreases n,
{
    if n > 0 {
        lemma_units_append::<A>(weights, past, packet, contexts, n - 1);
        let unit = weights.residual_units@[n - 1];
        assert(unit.fits(weights.transposed.output_channels as int));
        assert(contexts[n - 1] == residual_after::<A>(
            unit,
            weights.units_whole::<A>(past, n - 1),
        ));
        law_residual_append::<A>(
            unit,
            weights.units_whole::<A>(past, n - 1),
            weights.units_emitted::<A>(contexts, packet, n - 1),
        );
    }
}

/// A waveform block over a sequence and a packet.
pub proof fn law_block_append<'a, A: Arithmetic>(
    weights: CodecDecoderBlockWeights<'a, A::Scalar>,
    past: Seq<Seq<A::Scalar>>,
    packet: Seq<Seq<A::Scalar>>,
)
    requires
        weights.fits(),
    ensures
        weights.whole::<A>(past + packet) == weights.whole::<A>(past) + weights.emitted::<A>(
            block_after::<A>(weights, past),
            packet,
        ),
        weights.retained::<A>(block_after::<A>(weights, past), packet) == block_after::<A>(
            weights,
            past + packet,
        ),
{
    let context = block_after::<A>(weights, past);
    law_snake_append::<A>(past, packet, weights.alpha_log@, weights.beta_log@);
    law_transposed_append::<A>(
        weights.transposed,
        stages::snake_of::<A>(past, weights.alpha_log@, weights.beta_log@),
        stages::snake_of::<A>(packet, weights.alpha_log@, weights.beta_log@),
    );
    let raised = weights.raised::<A>(past);
    let raised_packet = weights.raised_packet::<A>(context, packet);
    assert(weights.raised::<A>(past + packet) == raised + raised_packet);
    lemma_units_append::<A>(weights, raised, raised_packet, context.units, 3);
    let next = weights.retained::<A>(context, packet);
    let want = block_after::<A>(weights, past + packet);
    assert forall|i: int| 0 <= i < 3 implies next.units[i] == want.units[i] by {
        lemma_units_append::<A>(weights, raised, raised_packet, context.units, i);
        let unit = weights.residual_units@[i];
        assert(unit.fits(weights.transposed.output_channels as int));
        law_residual_append::<A>(
            unit,
            weights.units_whole::<A>(raised, i),
            weights.units_emitted::<A>(context.units, raised_packet, i),
        );
    }
    assert(next.units =~= want.units);
}

/// What the decoder retains after a sequence of latents.
pub open spec fn decoder_after<'a, A: Arithmetic>(
    config: CodecConfig<A::Scalar>,
    weights: CodecDecoderWeights<'a, A::Scalar>,
    past: Seq<Seq<A::Scalar>>,
) -> DecoderContext<A::Scalar> {
    let attended = weights.attended::<A>(config, past);
    let widened = weights.widened::<A>(config, past);
    DecoderContext {
        frames_seen: past.len() as int,
        pre_conv: conv::latest(past, weights.pre_conv.keep()),
        caches: transformer::caches_after::<A>(
            config,
            weights.pre_transformer,
            0,
            weights.pre_conv.whole::<A>(past),
            transformer::no_caches::<A::Scalar>(weights.pre_transformer.layers@.len() as int),
            past.len() as int,
        ),
        stages: Seq::new(
            2,
            |i: int|
                upsample_after::<A>(
                    weights.latent_upsample@[i],
                    weights.latent_whole::<A>(attended, i),
                ),
        ),
        decoder_input: conv::latest(
            weights.latent_whole::<A>(attended, 2),
            weights.decoder_input.keep(),
        ),
        blocks: Seq::new(
            4,
            |i: int|
                block_after::<A>(
                    weights.decoder_blocks@[i],
                    weights.blocks_whole::<A>(widened, i),
                ),
        ),
        final_conv: conv::latest(
            weights.shaped::<A>(config, past),
            weights.final_conv.keep(),
        ),
    }
}

/// The first latent stages over a sequence and a packet.
proof fn lemma_latent_append<'a, A: Arithmetic>(
    config: CodecConfig<A::Scalar>,
    weights: CodecDecoderWeights<'a, A::Scalar>,
    past: Seq<Seq<A::Scalar>>,
    packet: Seq<Seq<A::Scalar>>,
    contexts: Seq<UpsampleContext<A::Scalar>>,
    n: int,
)
    requires
        weights.fits(config),
        0 <= n <= 2,
        contexts.len() == 2,
        forall|i: int|
            0 <= i < 2 ==> #[trigger] contexts[i] == upsample_after::<A>(
                weights.latent_upsample@[i],
                weights.latent_whole::<A>(past, i),
            ),
    ensures
        weights.latent_whole::<A>(past + packet, n) == weights.latent_whole::<A>(past, n)
            + weights.latent_emitted::<A>(contexts, packet, n),
    decreases n,
{
    if n > 0 {
        lemma_latent_append::<A>(config, weights, past, packet, contexts, n - 1);
        assert(weights.latent_upsample@[n - 1].fits());
        assert(contexts[n - 1] == upsample_after::<A>(
            weights.latent_upsample@[n - 1],
            weights.latent_whole::<A>(past, n - 1),
        ));
        law_upsample_append::<A>(
            weights.latent_upsample@[n - 1],
            weights.latent_whole::<A>(past, n - 1),
            weights.latent_emitted::<A>(contexts, packet, n - 1),
        );
    }
}

/// The first waveform blocks over a sequence and a packet.
proof fn lemma_blocks_append<'a, A: Arithmetic>(
    config: CodecConfig<A::Scalar>,
    weights: CodecDecoderWeights<'a, A::Scalar>,
    past: Seq<Seq<A::Scalar>>,
    packet: Seq<Seq<A::Scalar>>,
    contexts: Seq<BlockContext<A::Scalar>>,
    n: int,
)
    requires
        weights.fits(config),
        0 <= n <= 4,
        contexts.len() == 4,
        forall|i: int|
            0 <= i < 4 ==> #[trigger] contexts[i] == block_after::<A>(
                weights.decoder_blocks@[i],
                weights.blocks_whole::<A>(past, i),
            ),
    ensures
        weights.blocks_whole::<A>(past + packet, n) == weights.blocks_whole::<A>(past, n)
            + weights.blocks_emitted::<A>(contexts, packet, n),
    decreases n,
{
    if n > 0 {
        lemma_blocks_append::<A>(config, weights, past, packet, contexts, n - 1);
        assert(weights.decoder_blocks@[n - 1].fits());
        assert(contexts[n - 1] == block_after::<A>(
            weights.decoder_blocks@[n - 1],
            weights.blocks_whole::<A>(past, n - 1),
        ));
        law_block_append::<A>(
            weights.decoder_blocks@[n - 1],
            weights.blocks_whole::<A>(past, n - 1),
            weights.blocks_emitted::<A>(contexts, packet, n - 1),
        );
    }
}

/// The decoder over a sequence of latents and a packet: the samples of both are the samples of
/// the sequence followed by what the stream emits for the packet, and the stream is then where
/// one that has seen both is.
pub proof fn law_decoder_append<'a, A: Arithmetic>(
    config: CodecConfig<A::Scalar>,
    weights: CodecDecoderWeights<'a, A::Scalar>,
    past: Seq<Seq<A::Scalar>>,
    packet: Seq<Seq<A::Scalar>>,
)
    requires
        weights.fits(config),
    ensures
        weights.whole::<A>(config, past + packet) == weights.whole::<A>(config, past)
            + weights.emitted::<A>(config, decoder_after::<A>(config, weights, past), packet),
        weights.retained::<A>(config, decoder_after::<A>(config, weights, past), packet)
            == decoder_after::<A>(config, weights, past + packet),
{
    let context = decoder_after::<A>(config, weights, past);
    let both = past + packet;
    law_conv_append::<A>(weights.pre_conv, past, packet);
    let first = weights.pre_conv.whole::<A>(past);
    let first_packet = weights.pre_conv.emitted::<A>(context.pre_conv, packet);
    assert(first.len() == past.len());
    assert(first_packet.len() == packet.len());
    transformer::law_transformer_packets::<A>(
        config,
        weights.pre_transformer,
        0,
        first,
        first_packet,
        transformer::no_caches::<A::Scalar>(weights.pre_transformer.layers@.len() as int),
    );
    let attended = weights.attended::<A>(config, past);
    let attended_packet = weights.attended_packet::<A>(config, context, packet);
    assert(weights.attended::<A>(config, both) == attended + attended_packet);
    lemma_latent_append::<A>(config, weights, attended, attended_packet, context.stages, 2);
    let raised = weights.latent_whole::<A>(attended, 2);
    let raised_packet = weights.raised_packet::<A>(config, context, packet);
    law_conv_append::<A>(weights.decoder_input, raised, raised_packet);
    let widened = weights.widened::<A>(config, past);
    let widened_packet = weights.widened_packet::<A>(config, context, packet);
    assert(weights.widened::<A>(config, both) == widened + widened_packet);
    lemma_blocks_append::<A>(config, weights, widened, widened_packet, context.blocks, 4);
    let last = weights.blocks_whole::<A>(widened, 4);
    let last_packet = weights.blocks_emitted::<A>(context.blocks, widened_packet, 4);
    law_snake_append::<A>(
        last,
        last_packet,
        weights.final_alpha_log@,
        weights.final_beta_log@,
    );
    let shaped = weights.shaped::<A>(config, past);
    let shaped_packet = weights.shaped_packet::<A>(config, context, packet);
    assert(weights.shaped::<A>(config, both) == shaped + shaped_packet);
    law_conv_append::<A>(weights.final_conv, shaped, shaped_packet);
    let wave = weights.final_conv.whole::<A>(shaped);
    let wave_packet = weights.final_conv.emitted::<A>(context.final_conv, shaped_packet);
    assert(decoder::clamped::<A>(wave + wave_packet) =~= decoder::clamped::<A>(wave)
        + decoder::clamped::<A>(wave_packet));
    let next = weights.retained::<A>(config, context, packet);
    let want = decoder_after::<A>(config, weights, both);
    assert forall|i: int| 0 <= i < 2 implies next.stages[i] == want.stages[i] by {
        lemma_latent_append::<A>(config, weights, attended, attended_packet, context.stages, i);
        assert(weights.latent_upsample@[i].fits());
        law_upsample_append::<A>(
            weights.latent_upsample@[i],
            weights.latent_whole::<A>(attended, i),
            weights.latent_emitted::<A>(context.stages, attended_packet, i),
        );
    }
    assert(next.stages =~= want.stages);
    assert forall|i: int| 0 <= i < 4 implies next.blocks[i] == want.blocks[i] by {
        lemma_blocks_append::<A>(config, weights, widened, widened_packet, context.blocks, i);
        assert(weights.decoder_blocks@[i].fits());
        law_block_append::<A>(
            weights.decoder_blocks@[i],
            weights.blocks_whole::<A>(widened, i),
            weights.blocks_emitted::<A>(context.blocks, widened_packet, i),
        );
    }
    assert(next.blocks =~= want.blocks);
}

/// A decoder that has seen the empty sequence is a fresh decoder.
pub proof fn law_fresh_decoder<'a, A: Arithmetic>(
    config: CodecConfig<A::Scalar>,
    weights: CodecDecoderWeights<'a, A::Scalar>,
)
    requires
        weights.fits(config),
    ensures
        decoder_after::<A>(config, weights, Seq::empty()) == decoder::no_decoder_context::<
            A::Scalar,
        >(weights.pre_transformer.layers@.len() as int),
        weights.whole::<A>(config, Seq::empty()) == Seq::<Seq<A::Scalar>>::empty(),
{
    let none = Seq::<Seq<A::Scalar>>::empty();
    let attended = weights.attended::<A>(config, none);
    assert(attended =~= none);
    lemma_latent_empty::<A>(weights, 2);
    lemma_latent_empty::<A>(weights, 1);
    lemma_latent_empty::<A>(weights, 0);
    let widened = weights.widened::<A>(config, none);
    assert(widened =~= none);
    lemma_blocks_empty::<A>(config, weights, 4);
    let shaped = weights.shaped::<A>(config, none);
    assert(shaped =~= none);
    assert(weights.whole::<A>(config, none) =~= none);
    lemma_keep_is_natural(weights.pre_conv);
    lemma_keep_is_natural(weights.decoder_input);
    lemma_keep_is_natural(weights.final_conv);
    let got = decoder_after::<A>(config, weights, none);
    let want = decoder::no_decoder_context::<A::Scalar>(
        weights.pre_transformer.layers@.len() as int,
    );
    assert(got.pre_conv =~= want.pre_conv);
    assert(got.decoder_input =~= want.decoder_input);
    assert(got.final_conv =~= want.final_conv);
    assert forall|i: int| 0 <= i < 2 implies got.stages[i] == want.stages[i] by {
        lemma_latent_empty::<A>(weights, i);
        lemma_transposed_empty::<A>(weights.latent_upsample@[i].transposed);
        assert(weights.latent_upsample@[i].fits());
        vstd::arithmetic::div_mod::lemma_div_pos_is_pos(
            weights.latent_upsample@[i].transposed.kernel - 1,
            weights.latent_upsample@[i].transposed.stride as int,
        );
        assert(got.stages[i].transposed =~= want.stages[i].transposed);
        assert(got.stages[i].mixed =~= want.stages[i].mixed);
    }
    assert(got.stages =~= want.stages);
    assert forall|i: int| 0 <= i < 4 implies got.blocks[i] == want.blocks[i] by {
        lemma_blocks_empty::<A>(config, weights, i);
        assert(weights.decoder_blocks@[i].fits());
        lemma_block_context_empty::<A>(weights.decoder_blocks@[i]);
    }
    assert(got.blocks =~= want.blocks);
}

/// A transposed convolution of nothing is nothing.
proof fn lemma_transposed_empty<'a, A: Arithmetic>(
    weights: CausalTransposeConvWeights<'a, A::Scalar>,
)
    ensures
        weights.whole::<A>(Seq::empty()) == Seq::<Seq<A::Scalar>>::empty(),
{
    assert(0 * weights.stride == 0);
    assert(weights.whole::<A>(Seq::empty()) =~= Seq::<Seq<A::Scalar>>::empty());
}

/// The residual units of nothing are nothing.
proof fn lemma_units_empty<'a, A: Arithmetic>(
    weights: CodecDecoderBlockWeights<'a, A::Scalar>,
    n: int,
)
    ensures
        weights.units_whole::<A>(Seq::empty(), n) == Seq::<Seq<A::Scalar>>::empty(),
    decreases n,
{
    if n > 0 {
        lemma_units_empty::<A>(weights, n - 1);
        assert(weights.units_whole::<A>(Seq::empty(), n) =~= Seq::<Seq<A::Scalar>>::empty());
    }
}

/// A convolution never retains a negative number of frames.
proof fn lemma_keep_is_natural<'a, S: Copy>(weights: CausalConvWeights<'a, S>)
    requires
        weights.fits(),
    ensures
        0 <= weights.keep(),
{
    assert(0 <= weights.keep()) by (nonlinear_arith)
        requires
            weights.keep() == (weights.kernel - 1) * weights.dilation,
            weights.kernel > 0,
            weights.dilation > 0,
    ;
}

/// A block that has seen nothing retains nothing, and makes nothing of it.
proof fn lemma_block_context_empty<'a, A: Arithmetic>(
    weights: CodecDecoderBlockWeights<'a, A::Scalar>,
)
    requires
        weights.fits(),
    ensures
        block_after::<A>(weights, Seq::empty()) == stages::no_block_context::<A::Scalar>(),
        weights.whole::<A>(Seq::empty()) == Seq::<Seq<A::Scalar>>::empty(),
{
    let none = Seq::<Seq<A::Scalar>>::empty();
    let bent = stages::snake_of::<A>(none, weights.alpha_log@, weights.beta_log@);
    assert(bent =~= none);
    lemma_transposed_empty::<A>(weights.transposed);
    vstd::arithmetic::div_mod::lemma_div_pos_is_pos(
        weights.transposed.kernel - 1,
        weights.transposed.stride as int,
    );
    let got = block_after::<A>(weights, none);
    let want = stages::no_block_context::<A::Scalar>();
    assert(got.transposed =~= want.transposed);
    assert forall|i: int| 0 <= i < 3 implies got.units[i] == want.units[i] by {
        lemma_units_empty::<A>(weights, i);
        assert(weights.residual_units@[i].fits(weights.transposed.output_channels as int));
        lemma_keep_is_natural(weights.residual_units@[i].first_conv);
        lemma_keep_is_natural(weights.residual_units@[i].second_conv);
        assert(got.units[i].first =~= want.units[i].first);
        assert(got.units[i].second =~= want.units[i].second);
    }
    assert(got.units =~= want.units);
    lemma_units_empty::<A>(weights, 3);
}

/// The latent stages of nothing are nothing.
proof fn lemma_latent_empty<'a, A: Arithmetic>(
    weights: CodecDecoderWeights<'a, A::Scalar>,
    n: int,
)
    ensures
        weights.latent_whole::<A>(Seq::empty(), n) == Seq::<Seq<A::Scalar>>::empty(),
    decreases n,
{
    if n > 0 {
        lemma_latent_empty::<A>(weights, n - 1);
        lemma_transposed_empty::<A>(weights.latent_upsample@[n - 1].transposed);
        assert(weights.latent_whole::<A>(Seq::empty(), n) =~= Seq::<Seq<A::Scalar>>::empty());
    }
}

/// The waveform blocks of nothing are nothing.
proof fn lemma_blocks_empty<'a, A: Arithmetic>(
    config: CodecConfig<A::Scalar>,
    weights: CodecDecoderWeights<'a, A::Scalar>,
    n: int,
)
    requires
        weights.fits(config),
        n <= 4,
    ensures
        weights.blocks_whole::<A>(Seq::empty(), n) == Seq::<Seq<A::Scalar>>::empty(),
    decreases n,
{
    if n > 0 {
        lemma_blocks_empty::<A>(config, weights, n - 1);
        assert(weights.decoder_blocks@[n - 1].fits());
        lemma_block_context_empty::<A>(weights.decoder_blocks@[n - 1]);
    }
}

/// The context after the first `n` packets of a schedule.
pub open spec fn scheduled_context<'a, A: Arithmetic>(
    config: CodecConfig<A::Scalar>,
    weights: CodecDecoderWeights<'a, A::Scalar>,
    schedule: Seq<Seq<Seq<A::Scalar>>>,
    n: int,
) -> DecoderContext<A::Scalar>
    decreases n,
{
    if n <= 0 {
        decoder::no_decoder_context::<A::Scalar>(weights.pre_transformer.layers@.len() as int)
    } else {
        weights.retained::<A>(
            config,
            scheduled_context::<A>(config, weights, schedule, n - 1),
            schedule[n - 1],
        )
    }
}

/// The samples emitted for the first `n` packets of a schedule, from a fresh decoder.
pub open spec fn scheduled_samples<'a, A: Arithmetic>(
    config: CodecConfig<A::Scalar>,
    weights: CodecDecoderWeights<'a, A::Scalar>,
    schedule: Seq<Seq<Seq<A::Scalar>>>,
    n: int,
) -> Seq<A::Scalar>
    decreases n,
{
    if n <= 0 {
        Seq::empty()
    } else {
        scheduled_samples::<A>(config, weights, schedule, n - 1) + weights.emitted::<A>(
            config,
            scheduled_context::<A>(config, weights, schedule, n - 1),
            schedule[n - 1],
        ).flatten()
    }
}

/// Whatever the packet schedule, a fresh decoder emits exactly the samples of decoding all
/// latents at once.
pub proof fn law_every_schedule_decodes_alike<'a, A: Arithmetic>(
    config: CodecConfig<A::Scalar>,
    weights: CodecDecoderWeights<'a, A::Scalar>,
    schedule: Seq<Seq<Seq<A::Scalar>>>,
    n: int,
)
    requires
        weights.fits(config),
        0 <= n <= schedule.len(),
    ensures
        scheduled_samples::<A>(config, weights, schedule, n) == weights.whole::<A>(
            config,
            schedule.take(n).flatten(),
        ).flatten(),
        scheduled_context::<A>(config, weights, schedule, n) == decoder_after::<A>(
            config,
            weights,
            schedule.take(n).flatten(),
        ),
    decreases n,
{
    if n == 0 {
        assert(schedule.take(0) =~= Seq::<Seq<Seq<A::Scalar>>>::empty());
        law_fresh_decoder::<A>(config, weights);
    } else {
        law_every_schedule_decodes_alike::<A>(config, weights, schedule, n - 1);
        let before = schedule.take(n - 1);
        assert(schedule.take(n) =~= before.push(schedule[n - 1]));
        before.lemma_flatten_push(schedule[n - 1]);
        let past = before.flatten();
        law_decoder_append::<A>(config, weights, past, schedule[n - 1]);
        vstd::seq_lib::lemma_flatten_concat(
            weights.whole::<A>(config, past),
            weights.emitted::<A>(
                config,
                decoder_after::<A>(config, weights, past),
                schedule[n - 1],
            ),
        );
    }
}

/// Latents are decoded frame by frame, so a schedule of codes is a schedule of latents.
pub proof fn law_latents_append<'a, A: Arithmetic>(
    quantizer: SplitResidualVectorQuantizer<'a, A>,
    config: CodecConfig<A::Scalar>,
    past: Seq<Seq<i32>>,
    packet: Seq<Seq<i32>>,
)
    ensures
        quantizer.latents_of(config, past + packet) == quantizer.latents_of(config, past)
            + quantizer.latents_of(config, packet),
{
    assert(quantizer.latents_of(config, past + packet) =~= quantizer.latents_of(config, past)
        + quantizer.latents_of(config, packet));
}

/// That every code of some rows names an entry of its codebook.
pub open spec fn rows_fit<'b, A: Arithmetic>(
    config: CodecConfig<A::Scalar>,
    quantizer: SplitResidualVectorQuantizer<'b, A>,
    grid: Seq<Seq<i32>>,
) -> bool {
    forall|f: int| 0 <= f < grid.len() ==> quantizer.frame_fits(config, #[trigger] grid[f])
}

/// That a packet of codes was pushed: `out` is what came out, and the decoder went from `before` to
/// `after`.
pub open spec fn pushed<'a, 'b, A: Arithmetic>(
    config: CodecConfig<A::Scalar>,
    quantizer: SplitResidualVectorQuantizer<'b, A>,
    weights: CodecDecoderWeights<'a, A::Scalar>,
    packet: Seq<i32>,
    frames: int,
    out: Seq<A::Scalar>,
    before: DecoderContext<A::Scalar>,
    after: DecoderContext<A::Scalar>,
) -> bool {
    let grid = rows::unstack(packet, frames, config.groups as int);
    let latents = quantizer.latents_of(config, grid);
    &&& 0 < frames
    &&& packet.len() == frames * config.groups
    &&& rows_fit::<A>(config, quantizer, grid)
    &&& out == weights.emitted::<A>(config, before, latents).flatten()
    &&& after == weights.retained::<A>(config, before, latents)
}

/// That packets of codes were pushed one after another into a decoder that had seen nothing:
/// `outs` is what came out, and `contexts` what the decoder retained.
pub open spec fn streamed<'a, 'b, A: Arithmetic>(
    config: CodecConfig<A::Scalar>,
    quantizer: SplitResidualVectorQuantizer<'b, A>,
    weights: CodecDecoderWeights<'a, A::Scalar>,
    packets: Seq<Seq<i32>>,
    frames: Seq<int>,
    outs: Seq<Seq<A::Scalar>>,
    contexts: Seq<DecoderContext<A::Scalar>>,
) -> bool {
    &&& frames.len() == packets.len()
    &&& outs.len() == packets.len()
    &&& contexts.len() == packets.len() + 1
    &&& contexts[0] == decoder::no_decoder_context::<A::Scalar>(
        weights.pre_transformer.layers@.len() as int,
    )
    &&& forall|i: int|
        0 <= i < packets.len() ==> pushed::<A>(
            config,
            quantizer,
            weights,
            #[trigger] packets[i],
            frames[i],
            outs[i],
            contexts[i],
            contexts[i + 1],
        )
}

/// The code rows of the first `n` packets.
pub open spec fn pushed_rows(
    packets: Seq<Seq<i32>>,
    frames: Seq<int>,
    groups: int,
    n: int,
) -> Seq<Seq<i32>>
    decreases n,
{
    if n <= 0 {
        Seq::empty()
    } else {
        pushed_rows(packets, frames, groups, n - 1) + rows::unstack(
            packets[n - 1],
            frames[n - 1],
            groups,
        )
    }
}

/// What packets have led to is what their code rows lead to at once.
proof fn lemma_packets_append<'a, 'b, A: Arithmetic>(
    config: CodecConfig<A::Scalar>,
    quantizer: SplitResidualVectorQuantizer<'b, A>,
    weights: CodecDecoderWeights<'a, A::Scalar>,
    packets: Seq<Seq<i32>>,
    frames: Seq<int>,
    outs: Seq<Seq<A::Scalar>>,
    contexts: Seq<DecoderContext<A::Scalar>>,
    n: int,
)
    requires
        weights.fits(config),
        streamed::<A>(config, quantizer, weights, packets, frames, outs, contexts),
        0 <= n <= packets.len(),
    ensures
        ({
            let grid = pushed_rows(packets, frames, config.groups as int, n);
            let latents = quantizer.latents_of(config, grid);
            &&& rows::uniform(grid, config.groups as int)
            &&& rows_fit::<A>(config, quantizer, grid)
            &&& grid.flatten() == packets.take(n).flatten()
            &&& outs.take(n).flatten() == weights.whole::<A>(config, latents).flatten()
            &&& contexts[n] == decoder_after::<A>(config, weights, latents)
        }),
    decreases n,
{
    let groups = config.groups as int;
    let grid = pushed_rows(packets, frames, groups, n);
    if n == 0 {
        assert(packets.take(0) =~= Seq::<Seq<i32>>::empty());
        assert(outs.take(0) =~= Seq::<Seq<A::Scalar>>::empty());
        assert(quantizer.latents_of(config, grid) =~= Seq::<Seq<A::Scalar>>::empty());
        law_fresh_decoder::<A>(config, weights);
    } else {
        lemma_packets_append::<A>(
            config,
            quantizer,
            weights,
            packets,
            frames,
            outs,
            contexts,
            n - 1,
        );
        let before = pushed_rows(packets, frames, groups, n - 1);
        let packet = packets[n - 1];
        let now = rows::unstack(packet, frames[n - 1], groups);
        let past = quantizer.latents_of(config, before);
        rows::lemma_flatten_unstack(packet, frames[n - 1], groups);
        rows::lemma_uniform_concat(before, now, groups);
        assert forall|f: int| 0 <= f < grid.len() implies quantizer.frame_fits(
            config,
            #[trigger] grid[f],
        ) by {
            if f < before.len() {
                assert(quantizer.frame_fits(config, before[f]));
            } else {
                assert(quantizer.frame_fits(config, now[f - before.len()]));
            }
        }
        assert(packets.take(n) =~= packets.take(n - 1).push(packet));
        packets.take(n - 1).lemma_flatten_push(packet);
        vstd::seq_lib::lemma_flatten_concat(before, now);
        law_latents_append::<A>(quantizer, config, before, now);
        law_decoder_append::<A>(config, weights, past, quantizer.latents_of(config, now));
        vstd::seq_lib::lemma_flatten_concat(
            weights.whole::<A>(config, past),
            weights.emitted::<A>(config, contexts[n - 1], quantizer.latents_of(config, now)),
        );
        assert(outs.take(n) =~= outs.take(n - 1).push(outs[n - 1]));
        outs.take(n - 1).lemma_flatten_push(outs[n - 1]);
    }
}

/// However a stream of codes is cut into packets, decoding the whole stream at once succeeds where
/// the packets were taken, and its samples are those that came out of a fresh decoder, end to end.
pub proof fn law_packets_decode_the_stream<'a, 'b, A: Arithmetic>(
    config: CodecConfig<A::Scalar>,
    quantizer: SplitResidualVectorQuantizer<'b, A>,
    weights: CodecDecoderWeights<'a, A::Scalar>,
    packets: Seq<Seq<i32>>,
    frames: Seq<int>,
    outs: Seq<Seq<A::Scalar>>,
    contexts: Seq<DecoderContext<A::Scalar>>,
    total: int,
    result: Result<Vec<A::Scalar>, CodecError>,
)
    requires
        arith::pure::<A>(),
        weights.fits(config),
        config.groups > 0,
        streamed::<A>(config, quantizer, weights, packets, frames, outs, contexts),
        quantizer.layout_fits(
            config,
            packets.flatten().len() as int,
            total,
            total * config.codec_latent_dim,
        ),
        decoder::decoded_whole::<A>(
            config,
            quantizer,
            weights,
            packets.flatten(),
            total,
            result,
        ),
    ensures
        result matches Ok(samples) && outs.flatten() == samples@,
{
    let groups = config.groups as int;
    let n = packets.len() as int;
    let grid = pushed_rows(packets, frames, groups, n);
    lemma_packets_append::<A>(config, quantizer, weights, packets, frames, outs, contexts, n);
    assert(packets.take(n) =~= packets);
    assert(outs.take(n) =~= outs);
    rows::lemma_flatten_len(grid, groups);
    assert(grid.len() == total) by (nonlinear_arith)
        requires
            grid.len() * groups == total * groups,
            groups > 0,
    ;
    rows::lemma_unstack_flatten(grid, groups);
    if let Err(CodecError::InvalidCode { frame, group, .. }) = result {
        assert(quantizer.frame_fits(config, grid[frame as int]));
        assert(quantizer.code_fits(config, grid[frame as int], group as int));
    }
}

/// With the shipped strides the decoder makes exactly 1920 samples of every frame.
pub proof fn law_samples_per_frame<'a, S: Copy>(
    weights: CodecDecoderWeights<'a, S>,
    frames: int,
)
    requires
        weights.stride_at(0) == 2,
        weights.stride_at(1) == 2,
        weights.stride_at(2) == 8,
        weights.stride_at(3) == 5,
        weights.stride_at(4) == 4,
        weights.stride_at(5) == 3,
    ensures
        weights.frames_after(frames, 6) == 1920 * frames,
{
    reveal_with_fuel(CodecDecoderWeights::frames_after, 7);
    assert(frames * 2 * 2 * 8 * 5 * 4 * 3 == 1920 * frames) by (nonlinear_arith);
}

} // verus!
