//! What the speech encoder computes, said without the way it computes it.
use vstd::prelude::*;
use crate::algebra;
use crate::algebra::{minus, one, over, plus, silent, singles_out, sum_over, times, zero};
use crate::arith;
use crate::arith::{Arithmetic, Binary, Constant, Reduction, Relation, Unary};
use crate::codec::transformer;
use crate::kernel_laws;
use crate::kernels;
use crate::rows;
use crate::speech_encoder::conv;
use crate::speech_encoder::conv::{EncoderConv, PadMode, ResidualUnit};
use crate::speech_encoder::encoder;
use crate::speech_encoder::encoder::{SpeechEncoder, TRANSFORMER_LAYERS};
use crate::speech_encoder::quantizer;
use crate::speech_encoder::quantizer::RvqBranch;
use crate::speech_encoder::transformer::{TransformerLayer, HEADS, HEAD_DIM, INTERMEDIATE};
use crate::speech_encoder::{SpeechEncodeError, CODEBOOK_SIZE, HIDDEN, VQ_DIM};

verus! {

/// The unfolded input holds, for each channel in turn, what each tap reads.
proof fn lemma_column<A: Arithmetic>(
    layer: EncoderConv<A::Scalar>,
    x: Seq<Seq<A::Scalar>>,
    t: int,
    c: int,
    tap: int,
)
    requires
        0 <= c < layer.in_channels,
        0 <= tap < layer.kernel,
    ensures
        layer.column::<A>(x, t).len() == layer.in_channels * layer.kernel,
        0 <= c * layer.kernel + tap < layer.in_channels * layer.kernel,
        layer.column::<A>(x, t)[c * layer.kernel + tap] == conv::edge_value::<A>(
            x,
            layer.pad_mode,
            t * layer.stride + tap - (layer.kernel - layer.stride),
            c,
        ),
{
    let kernel = layer.kernel as int;
    let blocks = Seq::new(
        layer.in_channels as nat,
        |c: int|
            Seq::new(
                layer.kernel as nat,
                |tap: int|
                    conv::edge_value::<A>(
                        x,
                        layer.pad_mode,
                        t * layer.stride + tap - (layer.kernel - layer.stride),
                        c,
                    ),
            ),
    );
    rows::lemma_flatten_row(blocks, kernel, c);
    rows::lemma_flatten_len(blocks, kernel);
    rows::lemma_row_bounds(c, layer.in_channels as int, kernel);
    assert(rows::row(blocks.flatten(), c, kernel)[tap] == blocks[c][tap]);
}

/// A strided causal convolution reads ahead of nothing. An output channel whose weights single out
/// one tap of one input channel gives, on top of its bias, that channel at
/// `t * stride + tap - (kernel - stride)`: outside the frames that is zero, or the nearest frame
/// where the edges are repeated.
pub proof fn law_convolution_reads_its_stride<A: Arithmetic>(
    layer: EncoderConv<A::Scalar>,
    x: Seq<Seq<A::Scalar>>,
    t: int,
    o: int,
    c: int,
    tap: int,
    place: int,
)
    requires
        algebra::units::<A>(),
        algebra::reduces::<A>(),
        layer.fits(),
        0 <= t < layer.frames_out(x.len() as int),
        0 <= o < layer.out_channels,
        0 <= c < layer.in_channels,
        0 <= tap < layer.kernel,
        singles_out::<A>(
            rows::row(layer.weight@, o, layer.in_channels * layer.kernel),
            c * layer.kernel + tap,
        ),
        place == t * layer.stride + tap - (layer.kernel - layer.stride),
    ensures
        layer.applied::<A>(x).len() == layer.frames_out(x.len() as int),
        layer.applied::<A>(x)[t].len() == layer.out_channels,
        ({
            let read = if 0 <= place < x.len() {
                x[place][c]
            } else if layer.pad_mode == PadMode::Constant {
                zero::<A>()
            } else if place < 0 {
                x[0][c]
            } else {
                x[x.len() - 1][c]
            };
            layer.applied::<A>(x)[t][o] == match layer.bias {
                Some(bias) => plus::<A>(bias@[o], read),
                None => read,
            }
        }),
{
    lemma_column::<A>(layer, x, t, c, tap);
    let width = layer.in_channels * layer.kernel;
    assert(layer.weight@.len() == layer.out_channels * width) by (nonlinear_arith)
        requires
            layer.weight@.len() == layer.out_channels * layer.in_channels * layer.kernel,
            width == layer.in_channels * layer.kernel,
    ;
    kernel_laws::law_linear_reads_its_row::<A>(
        Reduction::SeededConvolution,
        layer.column::<A>(x, t),
        layer.weight@,
        layer.bias_view(),
        layer.out_channels as int,
        o,
        c * layer.kernel + tap,
    );
}

/// A convolution without weights answers its bias in every frame.
pub proof fn law_silent_convolution_is_its_bias<A: Arithmetic>(
    layer: EncoderConv<A::Scalar>,
    x: Seq<Seq<A::Scalar>>,
    t: int,
)
    requires
        algebra::units::<A>(),
        algebra::reduces::<A>(),
        layer.fits(),
        silent::<A>(layer.weight@),
        0 <= t < layer.frames_out(x.len() as int),
    ensures
        layer.applied::<A>(x)[t] == match layer.bias {
            Some(bias) => bias@,
            None => rows::filled(layer.out_channels as int, zero::<A>()),
        },
{
    let kernel = layer.kernel as int;
    let blocks = Seq::new(
        layer.in_channels as nat,
        |c: int|
            Seq::new(
                layer.kernel as nat,
                |tap: int|
                    conv::edge_value::<A>(
                        x,
                        layer.pad_mode,
                        t * layer.stride + tap - (layer.kernel - layer.stride),
                        c,
                    ),
            ),
    );
    rows::lemma_flatten_len(blocks, kernel);
    let width = layer.in_channels * layer.kernel;
    assert(layer.weight@.len() == layer.out_channels * width) by (nonlinear_arith)
        requires
            layer.weight@.len() == layer.out_channels * layer.in_channels * layer.kernel,
            width == layer.in_channels * layer.kernel,
    ;
    kernel_laws::law_silent_linear_is_its_bias::<A>(
        Reduction::SeededConvolution,
        layer.column::<A>(x, t),
        layer.weight@,
        layer.bias_view(),
        layer.out_channels as int,
    );
}

/// ELU keeps what is above zero, and what is not becomes its exponential less one.
pub proof fn law_elu_keeps_what_is_above_zero<A: Arithmetic>(x: A::Scalar)
    requires
        plus::<A>(arith::un::<A>(Unary::ExpMinusOne, x), one::<A>()) == arith::un::<A>(
            Unary::Exp,
            x,
        ),
    ensures
        !arith::rel::<A>(Relation::AtMost, x, zero::<A>()) ==> conv::elu_of::<A>(x) == x,
        arith::rel::<A>(Relation::AtMost, x, zero::<A>()) ==> plus::<A>(
            conv::elu_of::<A>(x),
            one::<A>(),
        ) == arith::un::<A>(Unary::Exp, x),
{
}

/// A residual unit is its input plus a branch: where its second convolution answers only zeros, the
/// unit changes nothing.
pub proof fn law_a_silent_branch_leaves_the_input<'a, A: Arithmetic>(
    unit: ResidualUnit<'a, A::Scalar>,
    x: Seq<Seq<A::Scalar>>,
)
    requires
        algebra::units::<A>(),
        algebra::reduces::<A>(),
        unit.fits(unit.conv_a.in_channels as int),
        rows::uniform(x, unit.conv_a.in_channels as int),
        silent::<A>(unit.conv_b.weight@),
        unit.conv_b.bias matches Some(bias) ==> silent::<A>(bias@),
    ensures
        unit.applied::<A>(x) == x,
{
    let inner = unit.conv_a.applied::<A>(conv::elu_rows::<A>(x));
    let again = conv::elu_rows::<A>(inner);
    let branch = unit.conv_b.applied::<A>(again);
    let out = unit.applied::<A>(x);
    assert(again.len() == x.len());
    assert forall|t: int| 0 <= t < x.len() implies #[trigger] out[t] == x[t] by {
        law_silent_convolution_is_its_bias::<A>(*unit.conv_b, again, t);
        assert(x[t].len() == unit.conv_a.in_channels);
        assert(silent::<A>(branch[t]));
        assert(out[t] =~= x[t]);
    }
    assert(out =~= x);
}

/// One path through a residual unit. Where an output channel reads the one tap of one middle channel
/// and that reads one tap of one input channel, the output is the input's own value plus the value
/// that took the path, activated before each convolution and moved by each bias.
pub proof fn law_a_residual_unit_follows_one_path<'a, A: Arithmetic>(
    unit: ResidualUnit<'a, A::Scalar>,
    x: Seq<Seq<A::Scalar>>,
    t: int,
    o: int,
    middle: int,
    source: int,
    tap: int,
)
    requires
        algebra::units::<A>(),
        algebra::reduces::<A>(),
        unit.fits(unit.conv_a.in_channels as int),
        unit.conv_a.bias is Some,
        unit.conv_b.bias is Some,
        unit.conv_b.kernel == 1,
        rows::uniform(x, unit.conv_a.in_channels as int),
        0 <= t < x.len(),
        0 <= o < unit.conv_b.out_channels,
        0 <= middle < unit.conv_a.out_channels,
        0 <= source < unit.conv_a.in_channels,
        0 <= tap < unit.conv_a.kernel,
        unit.conv_a.kernel - 1 - tap <= t,
        singles_out::<A>(
            rows::row(unit.conv_b.weight@, o, unit.conv_b.in_channels as int),
            middle,
        ),
        singles_out::<A>(
            rows::row(
                unit.conv_a.weight@,
                middle,
                unit.conv_a.in_channels * unit.conv_a.kernel,
            ),
            source * unit.conv_a.kernel + tap,
        ),
    ensures
        unit.applied::<A>(x)[t][o] == plus::<A>(
            x[t][o],
            plus::<A>(
                unit.conv_b.bias->0@[o],
                conv::elu_of::<A>(
                    plus::<A>(
                        unit.conv_a.bias->0@[middle],
                        conv::elu_of::<A>(x[t - (unit.conv_a.kernel - 1 - tap)][source]),
                    ),
                ),
            ),
        ),
{
    let past = unit.conv_a.kernel - 1 - tap;
    let bent = conv::elu_rows::<A>(x);
    let inner = unit.conv_a.applied::<A>(bent);
    let again = conv::elu_rows::<A>(inner);
    assert(x[t - past].len() == unit.conv_a.in_channels);
    assert(x[t].len() == unit.conv_a.in_channels);
    assert(unit.conv_a.frames_out(x.len() as int) == x.len());
    assert(t * 1 == t);
    law_convolution_reads_its_stride::<A>(
        *unit.conv_a,
        bent,
        t,
        middle,
        source,
        tap,
        t - past,
    );
    law_convolution_reads_its_stride::<A>(*unit.conv_b, again, t, o, middle, 0, t);
}

/// A rotation by nothing changes nothing, and a quarter turn moves the first half of a head to its
/// second half and the second, negated, to its first.
pub proof fn law_rotation_turns_pairs<A: Arithmetic>(
    x: Seq<A::Scalar>,
    cos: Seq<A::Scalar>,
    sin: Seq<A::Scalar>,
    i: int,
)
    requires
        algebra::units::<A>(),
        x.len() % 2 == 0,
        0 <= i < x.len() as int / 2,
    ensures
        ({
            let half = x.len() as int / 2;
            let out = crate::speech_encoder::transformer::rotated_of::<A>(x, cos, sin);
            &&& out.len() == x.len()
            &&& cos[i] == one::<A>() && sin[i] == zero::<A>() ==> out[i] == x[i]
            &&& cos[i + half] == one::<A>() && sin[i + half] == zero::<A>() ==> out[i + half]
                == x[i + half]
            &&& cos[i] == zero::<A>() && sin[i] == one::<A>() ==> out[i] == arith::un::<A>(
                Unary::Neg,
                x[i + half],
            )
            &&& cos[i + half] == zero::<A>() && sin[i + half] == one::<A>() ==> out[i + half]
                == x[i]
        }),
{
}

/// Every head is rotated on its own by the angles of its position.
pub proof fn law_heads_are_rotated_by_their_position<A: Arithmetic>(
    x: Seq<A::Scalar>,
    position: usize,
    head: int,
)
    requires
        x.len() == HIDDEN,
        0 <= head < 8,
    ensures
        crate::speech_encoder::transformer::rotated_heads::<A>(x, position as int).len() == HIDDEN,
        rows::row(
            crate::speech_encoder::transformer::rotated_heads::<A>(x, position as int),
            head,
            64,
        ) == crate::speech_encoder::transformer::rotated_of::<A>(
            rows::row(x, head, 64),
            transformer::codec_rope_row::<A>(Unary::Cos, position, 64),
            transformer::codec_rope_row::<A>(Unary::Sin, position, 64),
        ),
{
    let cos = transformer::codec_rope_row::<A>(Unary::Cos, position, HEAD_DIM);
    let sin = transformer::codec_rope_row::<A>(Unary::Sin, position, HEAD_DIM);
    let parts = Seq::new(
        HEADS as nat,
        |h: int|
            crate::speech_encoder::transformer::rotated_of::<A>(
                rows::row(x, h, HEAD_DIM as int),
                cos,
                sin,
            ),
    );
    rows::lemma_flatten_row(parts, HEAD_DIM as int, head);
    rows::lemma_flatten_len(parts, HEAD_DIM as int);
}

/// A layer whose two scales are silent changes nothing.
pub proof fn law_silent_scales_leave_the_rows<A: Arithmetic>(
    layer: TransformerLayer<A::Scalar>,
    x: Seq<Seq<A::Scalar>>,
)
    requires
        algebra::units::<A>(),
        layer.fits(),
        rows::uniform(x, HIDDEN as int),
        silent::<A>(layer.attn_scale@),
        silent::<A>(layer.mlp_scale@),
    ensures
        layer.applied::<A>(x) == x,
{
    let out = layer.applied::<A>(x);
    assert forall|t: int| 0 <= t < x.len() implies #[trigger] out[t] == x[t] by {
        assert(x[t].len() == HIDDEN);
        let attended = layer.attended::<A>(x[t], layer.context::<A>(x, t));
        assert(attended =~= x[t]);
        assert(layer.finished::<A>(attended) =~= attended);
    }
    assert(out =~= x);
}

/// The first position attends to itself alone. Where output `o` reads one attention lane and that
/// lane's value projection reads one normed channel, the row there gains that channel's normed
/// value times the layer's scale.
pub proof fn law_the_first_position_attends_to_itself<A: Arithmetic>(
    layer: TransformerLayer<A::Scalar>,
    x: Seq<Seq<A::Scalar>>,
    o: int,
    lane: int,
    source: int,
)
    requires
        algebra::units::<A>(),
        algebra::reduces::<A>(),
        layer.fits(),
        x.len() > 0,
        rows::uniform(x, HIDDEN as int),
        0 <= o < HIDDEN,
        singles_out::<A>(rows::row(layer.o_proj@, o, HIDDEN as int), lane),
        singles_out::<A>(rows::row(layer.v_proj@, lane, HIDDEN as int), source),
        forall|s: A::Scalar|
            #[trigger] arith::bin::<A>(Binary::Max, arith::cst::<A>(Constant::NegativeInfinity), s)
                == s,
        forall|s: A::Scalar|
            arith::un::<A>(Unary::Exp, #[trigger] minus::<A>(s, s)) == one::<A>(),
        over::<A>(one::<A>(), one::<A>()) == one::<A>(),
    ensures
        layer.attended::<A>(x[0], layer.context::<A>(x, 0))[o] == plus::<A>(
            x[0][o],
            times::<A>(
                layer.attn_scale@[o],
                kernels::layer_norm_of::<A>(
                    x[0],
                    layer.input_norm_weight@,
                    layer.input_norm_bias@,
                    arith::cst::<A>(Constant::EncoderNormEpsilon),
                )[source],
            ),
        ),
{
    let hidden = HIDDEN as int;
    let query = layer.query::<A>(x[0], 0);
    let key = layer.key::<A>(x[0], 0);
    let value = layer.value::<A>(x[0]);
    assert(x[0].len() == HIDDEN);
    law_heads_are_rotated_by_their_position::<A>(layer.projected::<A>(layer.q_proj@, x[0]), 0, 0);
    law_heads_are_rotated_by_their_position::<A>(layer.projected::<A>(layer.k_proj@, x[0]), 0, 0);
    assert(Seq::new(1, |p: int| layer.key::<A>(x[p], p)) =~= seq![key]);
    assert(Seq::new(1, |p: int| layer.value::<A>(x[p])) =~= seq![value]);
    kernel_laws::law_heads_attend_one_position_whole::<A>(
        query,
        key,
        value,
        HEADS as int,
        HEAD_DIM as int,
        arith::cst::<A>(Constant::EncoderAttentionScale),
    );
    assert(layer.context::<A>(x, 0) == value);
    let normed = kernels::layer_norm_of::<A>(
        x[0],
        layer.input_norm_weight@,
        layer.input_norm_bias@,
        arith::cst::<A>(Constant::EncoderNormEpsilon),
    );
    kernel_laws::law_linear_reads_its_row::<A>(
        Reduction::SeededConvolution,
        normed,
        layer.v_proj@,
        None,
        hidden,
        lane,
        source,
    );
    kernel_laws::law_linear_reads_its_row::<A>(
        Reduction::SeededConvolution,
        value,
        layer.o_proj@,
        None,
        hidden,
        o,
        lane,
    );
}

/// Position `t` attends to itself and everything before it, through rotated queries and keys and
/// plain values, with a scale of an eighth.
pub proof fn law_positions_attend_to_their_past<A: Arithmetic>(
    layer: TransformerLayer<A::Scalar>,
    x: Seq<Seq<A::Scalar>>,
    t: int,
    keys: Seq<Seq<A::Scalar>>,
    values: Seq<Seq<A::Scalar>>,
    head: int,
)
    requires
        layer.fits(),
        0 <= t < x.len(),
        rows::uniform(x, HIDDEN as int),
        keys.len() == t + 1,
        values.len() == t + 1,
        forall|p: int| 0 <= p <= t ==> #[trigger] keys[p] == layer.key::<A>(x[p], p),
        forall|p: int| 0 <= p <= t ==> #[trigger] values[p] == layer.value::<A>(x[p]),
        0 <= head < 8,
        t <= usize::MAX,
    ensures
        rows::row(layer.context::<A>(x, t), head, 64) == kernels::attend_of::<A>(
            rows::row(layer.query::<A>(x[t], t), head, 64),
            kernels::head_rows(keys, head * 64, 64),
            kernels::head_rows(values, head * 64, 64),
            arith::cst::<A>(Constant::EncoderAttentionScale),
        ),
{
    law_heads_are_rotated_by_their_position::<A>(
        layer.projected::<A>(layer.q_proj@, x[t]),
        t as usize,
        head,
    );
    assert(Seq::new((t + 1) as nat, |p: int| layer.key::<A>(x[p], p)) =~= keys);
    assert(Seq::new((t + 1) as nat, |p: int| layer.value::<A>(x[p])) =~= values);
    kernel_laws::law_heads_attend_apart::<A>(
        layer.query::<A>(x[t], t),
        keys,
        values,
        HEADS as int,
        1,
        HEAD_DIM as int,
        arith::cst::<A>(Constant::EncoderAttentionScale),
        head,
        head,
    );
}

/// Queries, keys and values each read the normed row through their own projection; queries and keys
/// are then rotated.
pub proof fn law_projections_read_the_normed_row<A: Arithmetic>(
    layer: TransformerLayer<A::Scalar>,
    x: Seq<A::Scalar>,
    t: int,
    lane: int,
    source: int,
)
    requires
        algebra::units::<A>(),
        algebra::reduces::<A>(),
        layer.fits(),
        x.len() == HIDDEN,
        0 <= lane < HIDDEN,
        0 <= source < HIDDEN,
    ensures
        ({
            let normed = kernels::layer_norm_of::<A>(
                x,
                layer.input_norm_weight@,
                layer.input_norm_bias@,
                arith::cst::<A>(Constant::EncoderNormEpsilon),
            );
            let queries = layer.projected::<A>(layer.q_proj@, x);
            let keys = layer.projected::<A>(layer.k_proj@, x);
            &&& layer.query::<A>(x, t) == crate::speech_encoder::transformer::rotated_heads::<A>(
                queries,
                t,
            )
            &&& layer.key::<A>(x, t) == crate::speech_encoder::transformer::rotated_heads::<A>(
                keys,
                t,
            )
            &&& singles_out::<A>(rows::row(layer.q_proj@, lane, HIDDEN as int), source)
                ==> queries[lane] == normed[source]
            &&& singles_out::<A>(rows::row(layer.k_proj@, lane, HIDDEN as int), source)
                ==> keys[lane] == normed[source]
            &&& singles_out::<A>(rows::row(layer.v_proj@, lane, HIDDEN as int), source)
                ==> layer.value::<A>(x)[lane] == normed[source]
        }),
{
    let hidden = HIDDEN as int;
    let normed = kernels::layer_norm_of::<A>(
        x,
        layer.input_norm_weight@,
        layer.input_norm_bias@,
        arith::cst::<A>(Constant::EncoderNormEpsilon),
    );
    if singles_out::<A>(rows::row(layer.q_proj@, lane, hidden), source) {
        kernel_laws::law_linear_reads_its_row::<A>(
            Reduction::SeededConvolution,
            normed,
            layer.q_proj@,
            None,
            hidden,
            lane,
            source,
        );
    }
    if singles_out::<A>(rows::row(layer.k_proj@, lane, hidden), source) {
        kernel_laws::law_linear_reads_its_row::<A>(
            Reduction::SeededConvolution,
            normed,
            layer.k_proj@,
            None,
            hidden,
            lane,
            source,
        );
    }
    if singles_out::<A>(rows::row(layer.v_proj@, lane, hidden), source) {
        kernel_laws::law_linear_reads_its_row::<A>(
            Reduction::SeededConvolution,
            normed,
            layer.v_proj@,
            None,
            hidden,
            lane,
            source,
        );
    }
}

/// One path through a layer's feed-forward branch. Where output `o` reads one inner unit and that
/// reads one normed channel, the row there gains the GELU of that channel's normed value times the
/// layer's scale.
pub proof fn law_the_feed_forward_branch_follows_one_path<A: Arithmetic>(
    layer: TransformerLayer<A::Scalar>,
    x: Seq<Seq<A::Scalar>>,
    t: int,
    o: int,
    unit: int,
    source: int,
)
    requires
        algebra::units::<A>(),
        algebra::reduces::<A>(),
        layer.fits(),
        0 <= t < x.len(),
        rows::uniform(x, HIDDEN as int),
        0 <= o < HIDDEN,
        singles_out::<A>(rows::row(layer.fc2@, o, INTERMEDIATE as int), unit),
        singles_out::<A>(rows::row(layer.fc1@, unit, HIDDEN as int), source),
    ensures
        ({
            let attended = layer.attended::<A>(x[t], layer.context::<A>(x, t));
            let normed = kernels::layer_norm_of::<A>(
                attended,
                layer.post_norm_weight@,
                layer.post_norm_bias@,
                arith::cst::<A>(Constant::EncoderNormEpsilon),
            );
            layer.applied::<A>(x)[t][o] == plus::<A>(
                attended[o],
                times::<A>(layer.mlp_scale@[o], kernels::gelu_of::<A>(normed[source])),
            )
        }),
{
    let hidden = HIDDEN as int;
    let inner = INTERMEDIATE as int;
    assert(x[t].len() == HIDDEN);
    let attended = layer.attended::<A>(x[t], layer.context::<A>(x, t));
    let normed = kernels::layer_norm_of::<A>(
        attended,
        layer.post_norm_weight@,
        layer.post_norm_bias@,
        arith::cst::<A>(Constant::EncoderNormEpsilon),
    );
    let spread = kernels::linear_of::<A>(
        Reduction::SeededConvolution,
        normed,
        layer.fc1@,
        None,
        inner,
    );
    kernel_laws::law_linear_reads_its_row::<A>(
        Reduction::SeededConvolution,
        normed,
        layer.fc1@,
        None,
        inner,
        unit,
        source,
    );
    kernel_laws::law_linear_reads_its_row::<A>(
        Reduction::SeededConvolution,
        kernels::gelu_row::<A>(spread),
        layer.fc2@,
        None,
        hidden,
        o,
        unit,
    );
}

/// A waveform passes every stage: the stem, four times a residual unit and an activated strided
/// convolution, an activated convolution, all transformer layers, and the downsampling.
pub proof fn law_the_embedding_passes_every_stage<A: Arithmetic>(
    encoder: SpeechEncoder<A>,
    pcm: Seq<A::Scalar>,
    stem: Seq<Seq<A::Scalar>>,
    first: Seq<Seq<A::Scalar>>,
    second: Seq<Seq<A::Scalar>>,
    third: Seq<Seq<A::Scalar>>,
    fourth: Seq<Seq<A::Scalar>>,
    last: Seq<Seq<A::Scalar>>,
)
    requires
        stem == encoder.conv(0).applied::<A>(encoder::sample_rows(pcm)),
        first == encoder.conv(3).applied::<A>(
            conv::elu_rows::<A>(encoder.unit(0).applied::<A>(stem)),
        ),
        second == encoder.conv(6).applied::<A>(
            conv::elu_rows::<A>(encoder.unit(1).applied::<A>(first)),
        ),
        third == encoder.conv(9).applied::<A>(
            conv::elu_rows::<A>(encoder.unit(2).applied::<A>(second)),
        ),
        fourth == encoder.conv(12).applied::<A>(
            conv::elu_rows::<A>(encoder.unit(3).applied::<A>(third)),
        ),
        last == encoder.conv(13).applied::<A>(conv::elu_rows::<A>(fourth)),
    ensures
        encoder.embedded(pcm) == encoder.conv(14).applied::<A>(
            encoder.layer(7).applied::<A>(
                encoder.layer(6).applied::<A>(
                    encoder.layer(5).applied::<A>(
                        encoder.layer(4).applied::<A>(
                            encoder.layer(3).applied::<A>(
                                encoder.layer(2).applied::<A>(
                                    encoder.layer(1).applied::<A>(
                                        encoder.layer(0).applied::<A>(last),
                                    ),
                                ),
                            ),
                        ),
                    ),
                ),
            ),
        ),
{
    reveal_with_fuel(SpeechEncoder::staged, 5);
    reveal_with_fuel(SpeechEncoder::layered, 9);
}

/// The residual unit of a stage is made of the stage's own two convolutions.
pub proof fn law_units_hold_their_own_convolutions<A: Arithmetic>(encoder: SpeechEncoder<A>)
    ensures
        *encoder.unit(0).conv_a == encoder.conv(1),
        *encoder.unit(0).conv_b == encoder.conv(2),
        *encoder.unit(1).conv_a == encoder.conv(4),
        *encoder.unit(1).conv_b == encoder.conv(5),
        *encoder.unit(2).conv_a == encoder.conv(7),
        *encoder.unit(2).conv_b == encoder.conv(8),
        *encoder.unit(3).conv_a == encoder.conv(10),
        *encoder.unit(3).conv_b == encoder.conv(11),
{
}

/// Silent layers drop out of the stack.
proof fn lemma_silent_layers<A: Arithmetic>(
    encoder: SpeechEncoder<A>,
    x: Seq<Seq<A::Scalar>>,
    from: int,
    to: int,
)
    requires
        algebra::units::<A>(),
        encoder.wf(),
        rows::uniform(x, HIDDEN as int),
        0 <= from <= to <= TRANSFORMER_LAYERS,
        forall|l: int|
            from <= l < to ==> {
                &&& silent::<A>((#[trigger] encoder.layer(l)).attn_scale@)
                &&& silent::<A>(encoder.layer(l).mlp_scale@)
            },
    ensures
        encoder.layered(x, to) == encoder.layered(x, from),
        rows::uniform(encoder.layered(x, from), HIDDEN as int),
    decreases to,
{
    encoder.lemma_parts();
    if to > from {
        lemma_silent_layers::<A>(encoder, x, from, to - 1);
        law_silent_scales_leave_the_rows::<A>(encoder.layer(to - 1), encoder.layered(x, from));
    } else {
        lemma_layered_uniform::<A>(encoder, x, from);
    }
}

/// Layers keep the width of their rows.
proof fn lemma_layered_uniform<A: Arithmetic>(
    encoder: SpeechEncoder<A>,
    x: Seq<Seq<A::Scalar>>,
    l: int,
)
    requires
        rows::uniform(x, HIDDEN as int),
    ensures
        encoder.layered(x, l).len() == x.len(),
        rows::uniform(encoder.layered(x, l), HIDDEN as int),
    decreases l,
{
    if l > 0 {
        lemma_layered_uniform::<A>(encoder, x, l - 1);
    }
}

/// Every transformer layer shapes the codes. With `last` any of the eight layers, where all layers
/// after it are silent, the rows that are quantized are the downsampling of what that layer makes of
/// what reaches it; and where all eight are silent, of the last convolution's output.
pub proof fn law_every_layer_shapes_the_embedding<A: Arithmetic>(
    encoder: SpeechEncoder<A>,
    pcm: Seq<A::Scalar>,
    x: Seq<Seq<A::Scalar>>,
    last: int,
)
    requires
        algebra::units::<A>(),
        encoder.wf(),
        x == encoder.conv(13).applied::<A>(conv::elu_rows::<A>(encoder.staged(pcm, 4))),
        -1 <= last < 8,
        forall|l: int|
            last < l < 8 ==> {
                &&& silent::<A>((#[trigger] encoder.layer(l)).attn_scale@)
                &&& silent::<A>(encoder.layer(l).mlp_scale@)
            },
    ensures
        last == -1 ==> encoder.embedded(pcm) == encoder.conv(14).applied::<A>(x),
        last >= 0 ==> encoder.embedded(pcm) == encoder.conv(14).applied::<A>(
            encoder.layer(last).applied::<A>(encoder.layered(x, last)),
        ),
        encoder.layered(x, 0) == x,
        last >= 0 ==> encoder.layered(x, last + 1) == encoder.layer(last).applied::<A>(
            encoder.layered(x, last),
        ),
{
    encoder.lemma_parts();
    assert(encoder::conv_is(encoder.conv(13), 13));
    assert(encoder::geometry_of(13).output == HIDDEN);
    assert(rows::uniform(x, HIDDEN as int));
    lemma_silent_layers::<A>(encoder, x, last + 1, 8);
}

/// The first code of a frame comes from the semantic branch and the other fifteen from the levels of
/// the acoustic branch, which reads the same row.
pub proof fn law_codes_come_from_two_branches<A: Arithmetic>(
    encoder: SpeechEncoder<A>,
    row: Seq<A::Scalar>,
    level: int,
)
    requires
        0 <= level < 15,
    ensures
        encoder.code(row, 0) == encoder.first_branch().code(row, 0),
        encoder.code(row, level + 1) == encoder.other_branch().code(row, level),
{
}

/// Nothing is lost between levels: the residual that reaches a level and the entries that the levels
/// before it took add up to the projected row.
pub proof fn law_residuals_and_entries_add_up<A: Arithmetic>(
    branch: RvqBranch<A>,
    x: Seq<A::Scalar>,
    level: int,
    i: int,
)
    requires
        algebra::additive::<A>(),
        algebra::subtractive::<A>(),
        0 <= level <= branch.codebooks@.len(),
        0 <= i < VQ_DIM,
    ensures
        branch.residual(x, level).len() == VQ_DIM,
        plus::<A>(
            branch.residual(x, level)[i],
            sum_over::<A>(
                |l: int| branch.codebooks@[l].entry(branch.code(x, l))[i],
                level,
            ),
        ) == kernels::linear_of::<A>(
            Reduction::SeededConvolution,
            x,
            branch.input_proj@,
            None,
            VQ_DIM as int,
        )[i],
    decreases level,
{
    let entry = |l: int| branch.codebooks@[l].entry(branch.code(x, l))[i];
    if level > 0 {
        law_residuals_and_entries_add_up::<A>(branch, x, level - 1, i);
        let before = branch.residual(x, level - 1)[i];
        let taken = entry(level - 1);
        let rest = sum_over::<A>(entry, level - 1);
        assert(branch.residual(x, level)[i] == minus::<A>(before, taken));
        assert(sum_over::<A>(entry, level) == plus::<A>(taken, rest));
        algebra::lemma_associates::<A>(minus::<A>(before, taken), taken, rest);
        assert(plus::<A>(minus::<A>(before, taken), taken) == before) by {
            reveal(algebra::subtractive);
        }
    } else {
        assert(sum_over::<A>(entry, 0) == zero::<A>());
        reveal(algebra::additive);
    }
}

/// Each level takes the entry whose distance from what reached it comes first among the nearest.
pub proof fn law_each_level_takes_the_nearest_entry<A: Arithmetic>(
    branch: RvqBranch<A>,
    x: Seq<A::Scalar>,
    level: int,
    d: Seq<A::Scalar>,
)
    requires
        d == quantizer::distances_of::<A>(
            branch.residual(x, level),
            branch.codebooks@[level].table(),
            branch.codebook_norms@[level]@,
        ),
    ensures
        d.len() == CODEBOOK_SIZE,
        branch.code(x, level) == quantizer::nearest_of::<A>(d, CODEBOOK_SIZE as int),
{
}

/// That squares and doubles expand as they do in exact arithmetic.
pub open spec fn expands<A: Arithmetic>() -> bool {
    let two = arith::cst::<A>(Constant::Two);
    &&& minus::<A>(zero::<A>(), zero::<A>()) == zero::<A>()
    &&& times::<A>(two, zero::<A>()) == zero::<A>()
    &&& forall|a: A::Scalar, b: A::Scalar|
        #[trigger] times::<A>(minus::<A>(a, b), minus::<A>(a, b)) == plus::<A>(
            minus::<A>(times::<A>(a, a), times::<A>(two, times::<A>(a, b))),
            times::<A>(b, b),
        )
    &&& forall|a: A::Scalar, b: A::Scalar|
        #[trigger] times::<A>(two, plus::<A>(a, b)) == plus::<A>(
            times::<A>(two, a),
            times::<A>(two, b),
        )
    &&& forall|a: A::Scalar, b: A::Scalar, c: A::Scalar, d: A::Scalar|
        #[trigger] minus::<A>(plus::<A>(a, b), plus::<A>(c, d)) == plus::<A>(
            minus::<A>(a, c),
            minus::<A>(b, d),
        )
}

/// The expansion of a squared distance, term by term.
proof fn lemma_expansion<A: Arithmetic>(x: Seq<A::Scalar>, y: Seq<A::Scalar>, n: int)
    requires
        algebra::additive::<A>(),
        expands::<A>(),
    ensures
        sum_over::<A>(|i: int| times::<A>(minus::<A>(x[i], y[i]), minus::<A>(x[i], y[i])), n)
            == plus::<A>(
            minus::<A>(
                sum_over::<A>(|i: int| times::<A>(x[i], x[i]), n),
                times::<A>(
                    arith::cst::<A>(Constant::Two),
                    sum_over::<A>(|i: int| times::<A>(x[i], y[i]), n),
                ),
            ),
            sum_over::<A>(|i: int| times::<A>(y[i], y[i]), n),
        ),
    decreases n,
{
    let two = arith::cst::<A>(Constant::Two);
    let far = |i: int| times::<A>(minus::<A>(x[i], y[i]), minus::<A>(x[i], y[i]));
    let xs = |i: int| times::<A>(x[i], x[i]);
    let xy = |i: int| times::<A>(x[i], y[i]);
    let ys = |i: int| times::<A>(y[i], y[i]);
    if n > 0 {
        lemma_expansion::<A>(x, y, n - 1);
        let k = n - 1;
        let s = sum_over::<A>(xs, k);
        let p = sum_over::<A>(xy, k);
        let q = sum_over::<A>(ys, k);
        let dp = times::<A>(two, p);
        let dk = times::<A>(two, xy(k));
        assert(times::<A>(two, plus::<A>(xy(k), p)) == plus::<A>(dk, dp));
        assert(minus::<A>(plus::<A>(xs(k), s), plus::<A>(dk, dp)) == plus::<A>(
            minus::<A>(xs(k), dk),
            minus::<A>(s, dp),
        ));
        let a = minus::<A>(xs(k), dk);
        let b = minus::<A>(s, dp);
        assert(far(k) == plus::<A>(a, ys(k)));
        algebra::lemma_associates::<A>(a, ys(k), plus::<A>(b, q));
        algebra::lemma_associates::<A>(ys(k), b, q);
        algebra::lemma_commutes::<A>(ys(k), b);
        algebra::lemma_associates::<A>(b, ys(k), q);
        algebra::lemma_associates::<A>(a, b, plus::<A>(ys(k), q));
        assert(sum_over::<A>(far, n) == plus::<A>(far(k), sum_over::<A>(far, k)));
    } else {
        assert(sum_over::<A>(far, n) == zero::<A>());
        reveal(algebra::additive);
        assert(plus::<A>(zero::<A>(), zero::<A>()) == zero::<A>());
    }
}

/// What is compared is the squared distance: the sum over all places of the squared difference
/// between the vector and the entry, never below zero, where the stored norm of the entry is the sum
/// of its squares.
pub proof fn law_distances_are_squared_differences<A: Arithmetic>(
    x: Seq<A::Scalar>,
    entries: Seq<A::Scalar>,
    norms: Seq<A::Scalar>,
    e: int,
    entry: Seq<A::Scalar>,
)
    requires
        algebra::additive::<A>(),
        algebra::reduces::<A>(),
        expands::<A>(),
        x.len() == VQ_DIM,
        entries.len() == CODEBOOK_SIZE * VQ_DIM,
        norms.len() == CODEBOOK_SIZE,
        0 <= e < CODEBOOK_SIZE,
        entry == rows::row(entries, e, VQ_DIM as int),
        norms[e] == sum_over::<A>(|i: int| times::<A>(entry[i], entry[i]), VQ_DIM as int),
    ensures
        quantizer::distances_of::<A>(x, entries, norms)[e] == arith::bin::<A>(
            Binary::Max,
            sum_over::<A>(
                |i: int| times::<A>(minus::<A>(x[i], entry[i]), minus::<A>(x[i], entry[i])),
                VQ_DIM as int,
            ),
            zero::<A>(),
        ),
{
    let n = VQ_DIM as int;
    rows::lemma_row_bounds(e, CODEBOOK_SIZE as int, n);
    kernel_laws::law_dot_sums_every_product::<A>(x, x, n);
    let product = sum_over::<A>(|i: int| times::<A>(x[i], entry[i]), n);
    assert(arith::red::<A>(Reduction::SeededConvolution, x, entry, None) == product) by {
        reveal(algebra::reduces);
        reveal(algebra::additive);
        assert(arith::red::<A>(Reduction::SeededConvolution, x, entry, None) == plus::<A>(
            zero::<A>(),
            product,
        ));
    }
    lemma_expansion::<A>(x, entry, n);
}

/// Whatever waveform [`SpeechEncoder::encode_24khz_pcm`] accepts, the codes it returns are those of the
/// downsampled rows of the last layer that has anything to add: frame by frame, the semantic code
/// first.
pub proof fn law_codes_read_the_last_layer<A: Arithmetic>(
    encoder: &SpeechEncoder<A>,
    pcm: &[A::Scalar],
    codes: Vec<u32>,
    x: Seq<Seq<A::Scalar>>,
    last: int,
    t: int,
    level: int,
)
    requires
        arith::pure::<A>(),
        algebra::units::<A>(),
        encoder.wf(),
        pcm@.len() + 1_920 <= usize::MAX,
        call_ensures(
            SpeechEncoder::<A>::encode_24khz_pcm,
            (encoder, pcm),
            Ok::<Vec<u32>, SpeechEncodeError>(codes),
        ),
        x == encoder.conv(13).applied::<A>(conv::elu_rows::<A>(encoder.staged(pcm@, 4))),
        0 <= last < 8,
        forall|l: int|
            last < l < 8 ==> {
                &&& silent::<A>((#[trigger] encoder.layer(l)).attn_scale@)
                &&& silent::<A>(encoder.layer(l).mlp_scale@)
            },
        0 <= t < encoder::frames_of(pcm@.len() as int),
        0 <= level < 15,
    ensures
        ({
            let row = encoder.conv(14).applied::<A>(
                encoder.layer(last).applied::<A>(encoder.layered(x, last)),
            )[t];
            let frame = rows::row(codes@, t, 16);
            &&& pcm@.len() >= 1_920
            &&& codes@.len() == encoder::frames_of(pcm@.len() as int) * 16
            &&& frame[0] == encoder.first_branch().code(row, 0)
            &&& frame[level + 1] == encoder.other_branch().code(row, level)
        }),
{
    law_every_layer_shapes_the_embedding::<A>(*encoder, pcm@, x, last);
    let frame = rows::row(codes@, t, 16);
    assert(frame[0] < CODEBOOK_SIZE);
    assert(frame[level + 1] < CODEBOOK_SIZE);
}

/// Only the downsampling repeats its edges and has no bias; every other convolution is padded with
/// silence and has one. The strides of the stages are four, five, six and eight, the downsampling's
/// two, and a strided kernel spans two strides.
pub proof fn law_convolutions_have_their_geometry<A: Arithmetic>(encoder: SpeechEncoder<A>, c: int)
    requires
        encoder.wf(),
        0 <= c < 14,
    ensures
        encoder.conv(c).pad_mode == PadMode::Constant,
        encoder.conv(c).bias is Some,
        encoder.conv(14).pad_mode == PadMode::Replicate,
        encoder.conv(14).bias is None,
        encoder.conv(14).stride == 2,
        encoder.conv(14).kernel == 4,
        encoder.conv(3).stride == 4,
        encoder.conv(6).stride == 5,
        encoder.conv(9).stride == 6,
        encoder.conv(12).stride == 8,
        c == 3 || c == 6 || c == 9 || c == 12 ==> encoder.conv(c).kernel == 2 * encoder.conv(
            c,
        ).stride,
        c % 3 != 0 || c == 0 ==> encoder.conv(c).stride == 1,
        encoder.conv(0).kernel == 7,
        encoder.conv(13).kernel == 3,
        c % 3 == 1 && c < 13 ==> encoder.conv(c).kernel == 3,
        c % 3 == 2 ==> encoder.conv(c).kernel == 1,
{
    encoder.lemma_parts();
    assert(encoder::conv_is(encoder.conv(c), c));
    assert(encoder::conv_is(encoder.conv(0), 0));
    assert(encoder::conv_is(encoder.conv(3), 3));
    assert(encoder::conv_is(encoder.conv(6), 6));
    assert(encoder::conv_is(encoder.conv(9), 9));
    assert(encoder::conv_is(encoder.conv(12), 12));
    assert(encoder::conv_is(encoder.conv(13), 13));
    assert(encoder::conv_is(encoder.conv(14), 14));
}

} // verus!
