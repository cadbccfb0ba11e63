//! What the decoder as a whole computes: the latents of its codes, and the stages they pass.
use vstd::prelude::*;
use crate::algebra;
use crate::algebra::{over, plus, singles_out, sum_over, times};
use crate::arith;
use crate::arith::{Arithmetic, Binary, Constant, Reduction, Unary};
use crate::codec::decoder::{decode_codec_offline, CodecDecoderWeights};
use crate::codec::quantizer;
use crate::codec::quantizer::{MaterializedCodebook, SplitResidualVectorQuantizer};
use crate::codec::stages;
use crate::codec::transformer;
use crate::codec::{CodecConfig, CodecError};
use crate::kernel_laws;
use crate::rows;

verus! {

/// A codebook entry times its usage, floored at epsilon, is the sum that was stored.
pub proof fn law_entries_are_sums_over_usage<A: Arithmetic>(
    embedding_sum: Seq<A::Scalar>,
    cluster_usage: Seq<A::Scalar>,
    dim: int,
    code: int,
    i: int,
    floored: A::Scalar,
)
    requires
        0 <= i < dim,
        0 <= code < cluster_usage.len(),
        embedding_sum.len() == cluster_usage.len() * dim,
        floored == arith::bin::<A>(
            Binary::Max,
            cluster_usage[code],
            arith::cst::<A>(Constant::CodebookUsageEpsilon),
        ),
        forall|v: A::Scalar| times::<A>(#[trigger] over::<A>(v, floored), floored) == v,
    ensures
        quantizer::entry_of::<A>(embedding_sum, cluster_usage, dim, code).len() == dim,
        times::<A>(
            quantizer::entry_of::<A>(embedding_sum, cluster_usage, dim, code)[i],
            floored,
        ) == embedding_sum[code * dim + i],
{
    rows::lemma_row_bounds(code, cluster_usage.len() as int, dim);
    let stored = embedding_sum[code * dim + i];
    assert(rows::row(embedding_sum, code, dim)[i] == stored);
    assert(times::<A>(over::<A>(stored, floored), floored) == stored);
}

/// One place of the acoustic sum is the sum of all groups' entries there.
proof fn lemma_rest_sum<'b, A: Arithmetic>(
    quantizer: SplitResidualVectorQuantizer<'b, A>,
    config: CodecConfig<A::Scalar>,
    codes: Seq<i32>,
    n: int,
    i: int,
)
    requires
        algebra::additive::<A>(),
        0 <= n,
        0 <= i < config.codebook_dim,
    ensures
        quantizer.rest_sum(config, codes, n).len() == config.codebook_dim,
        quantizer.rest_sum(config, codes, n)[i] == sum_over::<A>(
            |g: int| quantizer.rest_codebooks@[g].entry(codes[g + 1] as int)[i],
            n,
        ),
    decreases n,
{
    let term = |g: int| quantizer.rest_codebooks@[g].entry(codes[g + 1] as int)[i];
    if n > 0 {
        lemma_rest_sum::<A>(quantizer, config, codes, n - 1, i);
        algebra::lemma_commutes::<A>(quantizer.rest_sum(config, codes, n - 1)[i], term(n - 1));
        assert(sum_over::<A>(term, n) == plus::<A>(term(n - 1), sum_over::<A>(term, n - 1)));
    }
}

/// Every code of a frame enters its latent once. Where an output of the semantic projection reads
/// one place of a codebook vector and the same output of the acoustic projection another, the
/// latent there is the semantic code's value at the first place plus the sum, over all acoustic
/// groups, of each group's code's value at the second.
pub proof fn law_every_code_enters_the_latent<'b, A: Arithmetic>(
    quantizer: SplitResidualVectorQuantizer<'b, A>,
    config: CodecConfig<A::Scalar>,
    codes: Seq<i32>,
    o: int,
    semantic: int,
    acoustic: int,
)
    requires
        algebra::units::<A>(),
        algebra::additive::<A>(),
        algebra::reduces::<A>(),
        quantizer.wf(),
        config.groups > 0,
        codes.len() == config.groups,
        quantizer.rest_codebooks@.len() == config.groups - 1,
        quantizer.frame_fits(config, codes),
        quantizer.first_output_proj@.len() == config.codec_latent_dim * config.codebook_dim,
        quantizer.rest_output_proj@.len() == config.codec_latent_dim * config.codebook_dim,
        0 <= o < config.codec_latent_dim,
        singles_out::<A>(
            rows::row(quantizer.first_output_proj@, o, config.codebook_dim as int),
            semantic,
        ),
        singles_out::<A>(
            rows::row(quantizer.rest_output_proj@, o, config.codebook_dim as int),
            acoustic,
        ),
    ensures
        quantizer.latent_of(config, codes).len() == config.codec_latent_dim,
        quantizer.latent_of(config, codes)[o] == plus::<A>(
            quantizer.first_codebook.entry(codes[0] as int)[semantic],
            sum_over::<A>(
                |g: int| quantizer.rest_codebooks@[g].entry(codes[g + 1] as int)[acoustic],
                config.groups - 1,
            ),
        ),
{
    let dim = config.codebook_dim as int;
    let latent = config.codec_latent_dim as int;
    let rest = config.groups - 1;
    rows::lemma_row_bounds(o, latent, dim);
    lemma_rest_sum::<A>(quantizer, config, codes, rest, acoustic);
    kernel_laws::law_linear_reads_its_row::<A>(
        Reduction::Convolution,
        quantizer.first_sum(config, codes),
        quantizer.first_output_proj@,
        None,
        latent,
        o,
        semantic,
    );
    kernel_laws::law_linear_reads_its_row::<A>(
        Reduction::Convolution,
        quantizer.rest_sum(config, codes, rest),
        quantizer.rest_output_proj@,
        None,
        latent,
        o,
        acoustic,
    );
    assert(quantizer.code_fits(config, codes, 0));
}

/// Each frame's latent is made of its own codes.
pub proof fn law_frames_have_their_own_latents<'b, A: Arithmetic>(
    quantizer: SplitResidualVectorQuantizer<'b, A>,
    config: CodecConfig<A::Scalar>,
    grid: Seq<Seq<i32>>,
    f: int,
)
    requires
        0 <= f < grid.len(),
    ensures
        quantizer.latents_of(config, grid).len() == grid.len(),
        quantizer.latents_of(config, grid)[f] == quantizer.latent_of(config, grid[f]),
{
}

/// The decoder passes all its stages, in their order: the first convolution, the transformer from
/// position zero on empty caches, two latent stages, a convolution, four waveform blocks, SnakeBeta,
/// the last convolution, and a clamp of every sample.
pub proof fn law_decoding_passes_every_stage<'a, A: Arithmetic>(
    weights: CodecDecoderWeights<'a, A::Scalar>,
    config: CodecConfig<A::Scalar>,
    latents: Seq<Seq<A::Scalar>>,
    attended: Seq<Seq<A::Scalar>>,
    raised: Seq<Seq<A::Scalar>>,
    halfway: Seq<Seq<A::Scalar>>,
    bent: Seq<Seq<A::Scalar>>,
    t: int,
    c: int,
)
    requires
        attended == transformer::transformed::<A>(
            config,
            weights.pre_transformer,
            0,
            weights.pre_conv.whole::<A>(latents),
            transformer::no_caches::<A::Scalar>(weights.pre_transformer.layers@.len() as int),
        ),
        raised == weights.latent_upsample@[1].whole::<A>(
            weights.latent_upsample@[0].whole::<A>(attended),
        ),
        halfway == weights.decoder_blocks@[1].whole::<A>(
            weights.decoder_blocks@[0].whole::<A>(weights.decoder_input.whole::<A>(raised)),
        ),
        bent == stages::snake_of::<A>(
            weights.decoder_blocks@[3].whole::<A>(
                weights.decoder_blocks@[2].whole::<A>(halfway),
            ),
            weights.final_alpha_log@,
            weights.final_beta_log@,
        ),
        0 <= t < weights.final_conv.whole::<A>(bent).len(),
        0 <= c < weights.final_conv.whole::<A>(bent)[t].len(),
    ensures
        weights.whole::<A>(config, latents).len() == weights.final_conv.whole::<A>(bent).len(),
        weights.whole::<A>(config, latents)[t].len() == weights.final_conv.whole::<A>(
            bent,
        )[t].len(),
        weights.whole::<A>(config, latents)[t][c] == arith::un::<A>(
            Unary::ClampUnit,
            weights.final_conv.whole::<A>(bent)[t][c],
        ),
{
    reveal_with_fuel(CodecDecoderWeights::latent_whole, 3);
    reveal_with_fuel(CodecDecoderWeights::blocks_whole, 5);
}

/// Whatever codes [`decode_codec_offline`] accepts, sample `t` that it returns is the clamped sample of
/// the last convolution over every stage, from the latents of the codes on.
pub proof fn law_decoded_samples_pass_every_stage<'a, 'b, A: Arithmetic>(
    config: CodecConfig<A::Scalar>,
    quantizer: SplitResidualVectorQuantizer<'b, A>,
    weights: &CodecDecoderWeights<'a, A::Scalar>,
    codes: &[i32],
    frames: usize,
    samples: Vec<A::Scalar>,
    latents: Seq<Seq<A::Scalar>>,
    attended: Seq<Seq<A::Scalar>>,
    raised: Seq<Seq<A::Scalar>>,
    halfway: Seq<Seq<A::Scalar>>,
    bent: Seq<Seq<A::Scalar>>,
    t: int,
)
    requires
        arith::pure::<A>(),
        quantizer.wf(),
        weights.fits(config),
        weights.countable(frames as int),
        config.groups > 0 || frames == 0,
        frames * config.codec_latent_dim <= usize::MAX,
        call_ensures(
            decode_codec_offline::<A>,
            (config, quantizer, weights, codes, frames),
            Ok::<Vec<A::Scalar>, CodecError>(samples),
        ),
        latents.len() == frames,
        forall|f: int|
            0 <= f < frames ==> #[trigger] latents[f] == quantizer.latent_of(
                config,
                codes@.subrange(f * config.groups, f * config.groups + config.groups),
            ),
        attended == transformer::transformed::<A>(
            config,
            weights.pre_transformer,
            0,
            weights.pre_conv.whole::<A>(latents),
            transformer::no_caches::<A::Scalar>(weights.pre_transformer.layers@.len() as int),
        ),
        raised == weights.latent_upsample@[1].whole::<A>(
            weights.latent_upsample@[0].whole::<A>(attended),
        ),
        halfway == weights.decoder_blocks@[1].whole::<A>(
            weights.decoder_blocks@[0].whole::<A>(weights.decoder_input.whole::<A>(raised)),
        ),
        bent == stages::snake_of::<A>(
            weights.decoder_blocks@[3].whole::<A>(
                weights.decoder_blocks@[2].whole::<A>(halfway),
            ),
            weights.final_alpha_log@,
            weights.final_beta_log@,
        ),
        0 <= t < samples@.len(),
        samples@.len() == bent.len(),
    ensures
        samples@[t] == arith::un::<A>(
            Unary::ClampUnit,
            weights.final_conv.whole::<A>(bent)[t][0],
        ),
{
    let grid = rows::unstack(codes@, frames as int, config.groups as int);
    assert(quantizer.latents_of(config, grid) =~= latents);
    let last = weights.final_conv.whole::<A>(bent);
    assert(last[t].len() == 1);
    law_decoding_passes_every_stage::<A>(
        *weights,
        config,
        latents,
        attended,
        raised,
        halfway,
        bent,
        t,
        0,
    );
    let whole = weights.whole::<A>(config, latents);
    assert(rows::uniform(whole, 1));
    rows::lemma_flatten_row(whole, 1, t);
    assert(rows::row(whole.flatten(), t, 1)[0] == whole.flatten()[t]);
}

/// Whatever sums and usage [`MaterializedCodebook::from_unnormalized`] accepts, each value of each entry
/// times the entry's usage, floored at epsilon, is the sum that was stored.
pub proof fn law_codebooks_divide_sums_by_usage<A: Arithmetic>(
    embedding_sum: &[A::Scalar],
    cluster_usage: &[A::Scalar],
    size: usize,
    dim: usize,
    book: MaterializedCodebook<A>,
    code: int,
    i: int,
    floored: A::Scalar,
)
    requires
        arith::pure::<A>(),
        call_ensures(
            MaterializedCodebook::<A>::from_unnormalized,
            (embedding_sum, cluster_usage, size, dim),
            Ok::<MaterializedCodebook<A>, CodecError>(book),
        ),
        0 <= code < size,
        0 <= i < dim,
        floored == arith::bin::<A>(
            Binary::Max,
            cluster_usage@[code],
            arith::cst::<A>(Constant::CodebookUsageEpsilon),
        ),
        forall|v: A::Scalar| times::<A>(#[trigger] over::<A>(v, floored), floored) == v,
    ensures
        book.size() == size,
        book.width() == dim,
        times::<A>(book.entry(code)[i], floored) == embedding_sum@[code * dim + i],
{
    let usage = cluster_usage@[code];
    law_entries_are_sums_over_usage::<A>(
        embedding_sum@,
        cluster_usage@,
        dim as int,
        code,
        i,
        floored,
    );
}

} // verus!
