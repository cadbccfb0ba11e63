//! What the convolutions and stages of the decoder compute, said without the way they compute it.
use vstd::prelude::*;
use crate::algebra;
use crate::algebra::{one, plus, silent, singles_out, times, zero};
use crate::arith;
use crate::arith::{Arithmetic, Constant, Reduction, Unary};
use crate::codec::conv;
use crate::codec::stages;
use crate::codec::stages::{
    forward_convnext, forward_decoder_block, BlockContext, CausalConvWeights,
    CodecConvNextWeights, CodecDecoderBlockWeights, CodecResidualUnitWeights,
    CodecUpsampleStageWeights, ResidualContext, UpsampleContext,
};
use crate::kernel_laws;
use crate::kernels;
use crate::rows;

verus! {

/// The unfolded input holds, for each channel in turn, what each tap reads.
proof fn lemma_column<A: Arithmetic>(
    x: Seq<Seq<A::Scalar>>,
    t: int,
    channels: int,
    kernel: int,
    dilation: int,
    c: int,
    tap: int,
)
    requires
        0 <= c < channels,
        0 <= tap < kernel,
    ensures
        conv::column_of::<A>(x, t, channels, kernel, dilation).len() == channels * kernel,
        0 <= c * kernel + tap < channels * kernel,
        conv::column_of::<A>(x, t, channels, kernel, dilation)[c * kernel + tap]
            == conv::tap_value::<A>(x, t, c, (kernel - 1 - tap) * dilation),
{
    let blocks = Seq::new(
        channels as nat,
        |c: int|
            Seq::new(
                kernel as nat,
                |tap: int| conv::tap_value::<A>(x, t, c, (kernel - 1 - tap) * dilation),
            ),
    );
    rows::lemma_flatten_row(blocks, kernel, c);
    rows::lemma_flatten_len(blocks, kernel);
    rows::lemma_row_bounds(c, channels, kernel);
    assert(rows::row(blocks.flatten(), c, kernel)[tap] == blocks[c][tap]);
}

/// A causal convolution shifts and mixes. An output channel whose weights single out one tap of one
/// input channel gives, on top of its bias, that channel as it was `(kernel - 1 - tap) * dilation`
/// frames ago, and nothing before the first frame.
pub proof fn law_convolution_reads_the_past<A: Arithmetic>(
    x: Seq<Seq<A::Scalar>>,
    input_channels: int,
    weight: Seq<A::Scalar>,
    bias: Option<Seq<A::Scalar>>,
    output_channels: int,
    kernel: int,
    dilation: int,
    t: int,
    o: int,
    c: int,
    tap: int,
)
    requires
        algebra::units::<A>(),
        algebra::reduces::<A>(),
        weight.len() == output_channels * input_channels * kernel,
        bias matches Some(values) ==> values.len() == output_channels,
        0 <= t < x.len(),
        0 <= o < output_channels,
        0 <= c < input_channels,
        0 <= tap < kernel,
        0 < dilation,
        singles_out::<A>(
            rows::row(weight, o, input_channels * kernel),
            c * kernel + tap,
        ),
    ensures
        ({
            let past = (kernel - 1 - tap) * dilation;
            let out = conv::conv_of::<A>(
                x,
                input_channels,
                weight,
                bias,
                output_channels,
                kernel,
                dilation,
            );
            let start = match bias {
                Some(values) => values[o],
                None => zero::<A>(),
            };
            &&& out.len() == x.len()
            &&& out[t].len() == output_channels
            &&& past <= t ==> out[t][o] == plus::<A>(start, x[t - past][c])
            &&& t < past ==> out[t][o] == start
        }),
{
    let column = conv::column_of::<A>(x, t, input_channels, kernel, dilation);
    lemma_column::<A>(x, t, input_channels, kernel, dilation, c, tap);
    assert(weight.len() == output_channels * (input_channels * kernel)) by (nonlinear_arith)
        requires
            weight.len() == output_channels * input_channels * kernel,
    ;
    kernel_laws::law_linear_reads_its_row::<A>(
        Reduction::SeededConvolution,
        column,
        weight,
        bias,
        output_channels,
        o,
        c * kernel + tap,
    );
}

/// A convolution without weights answers its bias in every frame.
pub proof fn law_silent_convolution_is_its_bias<'a, A: Arithmetic>(
    weights: CausalConvWeights<'a, A::Scalar>,
    x: Seq<Seq<A::Scalar>>,
    t: int,
)
    requires
        algebra::units::<A>(),
        algebra::reduces::<A>(),
        weights.fits(),
        silent::<A>(weights.weight@),
        0 <= t < x.len(),
    ensures
        weights.whole::<A>(x).len() == x.len(),
        weights.whole::<A>(x)[t] == weights.bias@,
{
    let channels = weights.input_channels as int;
    let kernel = weights.kernel as int;
    let column = conv::column_of::<A>(x, t, channels, kernel, weights.dilation as int);
    let blocks = Seq::new(
        channels as nat,
        |c: int|
            Seq::new(
                kernel as nat,
                |tap: int|
                    conv::tap_value::<A>(x, t, c, (kernel - 1 - tap) * weights.dilation as int),
            ),
    );
    rows::lemma_flatten_len(blocks, kernel);
    assert(weights.weight@.len() == weights.output_channels * (channels * kernel))
        by (nonlinear_arith)
        requires
            weights.weight@.len() == weights.output_channels * channels * kernel,
    ;
    kernel_laws::law_silent_linear_is_its_bias::<A>(
        Reduction::SeededConvolution,
        column,
        weights.weight@,
        Some(weights.bias@),
        weights.output_channels as int,
    );
}

/// The taps' sum where one tap carries one input channel and the others carry nothing.
proof fn lemma_transposed_sum<A: Arithmetic>(
    x: Seq<Seq<A::Scalar>>,
    weight: Seq<A::Scalar>,
    input_channels: int,
    output_channels: int,
    kernel: int,
    stride: int,
    t: int,
    o: int,
    c: int,
    tap: int,
    n: int,
)
    requires
        algebra::units::<A>(),
        algebra::reduces::<A>(),
        0 < stride,
        rows::uniform(x, input_channels),
        0 <= c < input_channels,
        0 <= tap < kernel,
        0 <= n <= kernel,
        singles_out::<A>(
            conv::transposed_weights(weight, input_channels, output_channels, kernel, o, tap),
            c,
        ),
        forall|k: int|
            0 <= k < kernel && k != tap ==> silent::<A>(
                #[trigger] conv::transposed_weights(
                    weight,
                    input_channels,
                    output_channels,
                    kernel,
                    o,
                    k,
                ),
            ),
    ensures
        conv::transposed_sum::<A>(
            x,
            weight,
            input_channels,
            output_channels,
            kernel,
            stride,
            t,
            o,
            n,
        ) == if tap < n && tap <= t && (t - tap) % stride == 0 && (t - tap) / stride < x.len() {
            x[(t - tap) / stride][c]
        } else {
            zero::<A>()
        },
    decreases n,
{
    if n > 0 {
        lemma_transposed_sum::<A>(
            x,
            weight,
            input_channels,
            output_channels,
            kernel,
            stride,
            t,
            o,
            c,
            tap,
            n - 1,
        );
        let read = conv::transposed_weights(
            weight,
            input_channels,
            output_channels,
            kernel,
            o,
            n - 1,
        );
        match conv::landing_frame(t, n - 1, stride, x.len() as int) {
            Some(frame) => {
                vstd::arithmetic::div_mod::lemma_div_pos_is_pos(t - (n - 1), stride);
                assert(x[frame].len() == input_channels);
                if n - 1 == tap {
                    algebra::lemma_single_reduction::<A>(
                        Reduction::Convolution,
                        x[frame],
                        read,
                        None,
                        c,
                    );
                } else {
                    algebra::lemma_silent_reduction::<A>(
                        Reduction::Convolution,
                        x[frame],
                        read,
                        None,
                    );
                }
            },
            None => {},
        }
    }
}

/// A transposed convolution spreads its frames. Where one tap of an output channel carries one
/// input channel, each frame of that channel lands on output frame `frame * stride + tap`, on top of
/// the bias, and the bias stands alone wherever no frame lands.
pub proof fn law_transposed_convolution_spreads_frames<A: Arithmetic>(
    x: Seq<Seq<A::Scalar>>,
    input_channels: int,
    weight: Seq<A::Scalar>,
    bias: Option<Seq<A::Scalar>>,
    output_channels: int,
    kernel: int,
    stride: int,
    t: int,
    o: int,
    c: int,
    tap: int,
    frame: int,
)
    requires
        algebra::units::<A>(),
        algebra::reduces::<A>(),
        0 < stride,
        rows::uniform(x, input_channels),
        bias matches Some(values) ==> values.len() == output_channels,
        0 <= t < x.len() * stride,
        0 <= o < output_channels,
        0 <= c < input_channels,
        0 <= tap < kernel,
        singles_out::<A>(
            conv::transposed_weights(weight, input_channels, output_channels, kernel, o, tap),
            c,
        ),
        forall|k: int|
            0 <= k < kernel && k != tap ==> silent::<A>(
                #[trigger] conv::transposed_weights(
                    weight,
                    input_channels,
                    output_channels,
                    kernel,
                    o,
                    k,
                ),
            ),
    ensures
        ({
            let out = conv::transposed_of::<A>(
                x,
                input_channels,
                weight,
                bias,
                output_channels,
                kernel,
                stride,
            );
            let start = match bias {
                Some(values) => values[o],
                None => zero::<A>(),
            };
            &&& out.len() == x.len() * stride
            &&& out[t].len() == output_channels
            &&& 0 <= frame < x.len() && t == frame * stride + tap ==> out[t][o] == plus::<A>(
                x[frame][c],
                start,
            )
            &&& t < tap || (t - tap) % stride != 0 ==> out[t][o] == start
        }),
{
    lemma_transposed_sum::<A>(
        x,
        weight,
        input_channels,
        output_channels,
        kernel,
        stride,
        t,
        o,
        c,
        tap,
        kernel,
    );
    if 0 <= frame < x.len() && t == frame * stride + tap {
        assert(0 <= frame * stride) by (nonlinear_arith)
            requires
                0 <= frame,
                0 < stride,
        ;
        vstd::arithmetic::div_mod::lemma_fundamental_div_mod_converse(t - tap, stride, frame, 0);
    }
}

/// A depthwise convolution keeps its channels apart. Where the taps of a channel single out one,
/// the channel comes out as it was `kernel - 1 - tap` frames ago, on top of its bias.
pub proof fn law_depthwise_convolution_reads_its_own_channel<A: Arithmetic>(
    x: Seq<Seq<A::Scalar>>,
    channels: int,
    weight: Seq<A::Scalar>,
    bias: Seq<A::Scalar>,
    kernel: int,
    t: int,
    c: int,
    tap: int,
)
    requires
        algebra::units::<A>(),
        weight.len() == channels * kernel,
        bias.len() == channels,
        0 <= t < x.len(),
        0 <= c < channels,
        0 <= tap < kernel,
        singles_out::<A>(rows::row(weight, c, kernel), tap),
    ensures
        ({
            let past = kernel - 1 - tap;
            let out = conv::depthwise_of::<A>(x, channels, weight, bias, kernel);
            &&& out.len() == x.len()
            &&& out[t].len() == channels
            &&& past <= t ==> out[t][c] == plus::<A>(bias[c], x[t - past][c])
            &&& t < past ==> out[t][c] == bias[c]
        }),
{
    lemma_depthwise_sum::<A>(x, channels, weight, bias, kernel, t, c, tap, kernel);
}

/// The taps' sum of one channel where its taps single out one.
proof fn lemma_depthwise_sum<A: Arithmetic>(
    x: Seq<Seq<A::Scalar>>,
    channels: int,
    weight: Seq<A::Scalar>,
    bias: Seq<A::Scalar>,
    kernel: int,
    t: int,
    c: int,
    tap: int,
    n: int,
)
    requires
        algebra::units::<A>(),
        weight.len() == channels * kernel,
        0 <= t < x.len(),
        0 <= c < channels,
        0 <= tap < kernel,
        0 <= n <= kernel,
        singles_out::<A>(rows::row(weight, c, kernel), tap),
    ensures
        conv::depthwise_sum::<A>(x, weight, bias, kernel, t, c, n) == if tap < n && kernel - 1 - tap
            <= t {
            plus::<A>(bias[c], x[t - (kernel - 1 - tap)][c])
        } else {
            bias[c]
        },
    decreases n,
{
    if n > 0 {
        lemma_depthwise_sum::<A>(x, channels, weight, bias, kernel, t, c, tap, n - 1);
        rows::lemma_row_bounds(c, channels, kernel);
        assert(rows::row(weight, c, kernel)[n - 1] == weight[c * kernel + n - 1]);
    }
}

/// SnakeBeta leaves a value alone where its sine is zero, and lifts it by one over `e^beta` and
/// epsilon where the square of the sine is one.
pub proof fn law_snake_lifts_by_the_squared_sine<A: Arithmetic>(
    x: A::Scalar,
    alpha_log: A::Scalar,
    beta_log: A::Scalar,
    sine: A::Scalar,
)
    requires
        algebra::units::<A>(),
        sine == arith::un::<A>(
            Unary::Sin,
            times::<A>(x, arith::un::<A>(Unary::Exp, alpha_log)),
        ),
    ensures
        sine == zero::<A>() ==> stages::snake_value::<A>(x, alpha_log, beta_log) == x,
        times::<A>(sine, sine) == one::<A>() ==> stages::snake_value::<A>(x, alpha_log, beta_log)
            == plus::<A>(
            x,
            arith::un::<A>(
                Unary::Recip,
                plus::<A>(
                    arith::un::<A>(Unary::Exp, beta_log),
                    arith::cst::<A>(Constant::SnakeEpsilon),
                ),
            ),
        ),
{
}

/// Each channel of each frame is bent with its own channel's parameters.
pub proof fn law_snake_bends_each_channel<A: Arithmetic>(
    x: Seq<Seq<A::Scalar>>,
    alpha_log: Seq<A::Scalar>,
    beta_log: Seq<A::Scalar>,
    t: int,
    c: int,
)
    requires
        0 <= t < x.len(),
        0 <= c < x[t].len(),
    ensures
        stages::snake_of::<A>(x, alpha_log, beta_log).len() == x.len(),
        stages::snake_of::<A>(x, alpha_log, beta_log)[t].len() == x[t].len(),
        stages::snake_of::<A>(x, alpha_log, beta_log)[t][c] == stages::snake_value::<A>(
            x[t][c],
            alpha_log[c],
            beta_log[c],
        ),
{
}

/// A residual unit is its input plus a branch: where its second convolution answers only zeros, the
/// unit changes nothing, whatever else its weights hold and whatever it has heard before.
pub proof fn law_a_silent_branch_leaves_the_input<'a, A: Arithmetic>(
    unit: CodecResidualUnitWeights<'a, A::Scalar>,
    channels: int,
    context: ResidualContext<A::Scalar>,
    x: Seq<Seq<A::Scalar>>,
)
    requires
        algebra::units::<A>(),
        algebra::reduces::<A>(),
        unit.fits(channels),
        rows::uniform(x, channels),
        silent::<A>(unit.second_conv.weight@),
        silent::<A>(unit.second_conv.bias@),
    ensures
        unit.whole::<A>(x) == x,
        unit.emitted::<A>(context, x) == x,
{
    let bent = stages::snake_of::<A>(x, unit.first_alpha_log@, unit.first_beta_log@);
    let spread = unit.first_conv.whole::<A>(bent);
    let again = stages::snake_of::<A>(spread, unit.second_alpha_log@, unit.second_beta_log@);
    let branch = unit.second_conv.whole::<A>(again);
    let whole = unit.whole::<A>(x);
    assert forall|t: int| 0 <= t < x.len() implies #[trigger] whole[t] == x[t] by {
        law_silent_convolution_is_its_bias::<A>(unit.second_conv, again, t);
        assert(x[t].len() == channels);
        assert(branch[t] == unit.second_conv.bias@);
        assert(whole[t] =~= x[t]);
    }
    assert(whole =~= x);
    let halfway = unit.halfway::<A>(context, x);
    let heard = context.second + halfway;
    let emitted = unit.emitted::<A>(context, x);
    assert(halfway.len() == x.len());
    assert forall|t: int| 0 <= t < x.len() implies #[trigger] emitted[t] == x[t] by {
        law_silent_convolution_is_its_bias::<A>(
            unit.second_conv,
            heard,
            context.second.len() + t,
        );
        assert(x[t].len() == channels);
        assert(unit.second_conv.emitted::<A>(context.second, halfway)[t] == unit.second_conv.bias@);
        assert(emitted[t] =~= x[t]);
    }
    assert(emitted =~= x);
}

/// Where the input of a residual unit is silent, its output is its branch: SnakeBeta, the first
/// convolution, SnakeBeta again and the second convolution.
pub proof fn law_a_silent_input_leaves_the_branch<'a, A: Arithmetic>(
    unit: CodecResidualUnitWeights<'a, A::Scalar>,
    channels: int,
    x: Seq<Seq<A::Scalar>>,
    bent: Seq<Seq<A::Scalar>>,
    again: Seq<Seq<A::Scalar>>,
)
    requires
        algebra::neutral_zero::<A>(),
        unit.fits(channels),
        rows::uniform(x, channels),
        algebra::silent_rows::<A>(x),
        bent == stages::snake_of::<A>(x, unit.first_alpha_log@, unit.first_beta_log@),
        again == stages::snake_of::<A>(
            unit.first_conv.whole::<A>(bent),
            unit.second_alpha_log@,
            unit.second_beta_log@,
        ),
    ensures
        unit.whole::<A>(x) == unit.second_conv.whole::<A>(again),
{
    let branch = unit.second_conv.whole::<A>(again);
    let whole = unit.whole::<A>(x);
    assert forall|t: int| 0 <= t < x.len() implies #[trigger] whole[t] == branch[t] by {
        assert(x[t].len() == channels && silent::<A>(x[t]));
        assert(whole[t] =~= branch[t]);
    }
    assert(whole =~= branch);
}

/// One path through a residual unit. Where an output channel reads one tap of one middle channel
/// and that reads one tap of one input channel, the output is the input's own value plus the value
/// that took the path, bent before each convolution and moved by each bias.
pub proof fn law_a_residual_unit_follows_one_path<'a, A: Arithmetic>(
    unit: CodecResidualUnitWeights<'a, A::Scalar>,
    channels: int,
    x: Seq<Seq<A::Scalar>>,
    t: int,
    o: int,
    middle: int,
    tap: int,
    source: int,
    early: int,
)
    requires
        algebra::units::<A>(),
        algebra::reduces::<A>(),
        unit.fits(channels),
        rows::uniform(x, channels),
        0 <= o < channels,
        0 <= middle < unit.first_conv.output_channels,
        0 <= source < channels,
        0 <= tap < unit.second_conv.kernel,
        0 <= early < unit.first_conv.kernel,
        singles_out::<A>(
            rows::row(
                unit.second_conv.weight@,
                o,
                unit.second_conv.input_channels * unit.second_conv.kernel,
            ),
            middle * unit.second_conv.kernel + tap,
        ),
        singles_out::<A>(
            rows::row(
                unit.first_conv.weight@,
                middle,
                unit.first_conv.input_channels * unit.first_conv.kernel,
            ),
            source * unit.first_conv.kernel + early,
        ),
        0 <= t < x.len(),
        (unit.second_conv.kernel - 1 - tap) * unit.second_conv.dilation + (unit.first_conv.kernel
            - 1 - early) * unit.first_conv.dilation <= t,
    ensures
        ({
            let back = (unit.second_conv.kernel - 1 - tap) * unit.second_conv.dilation + (
            unit.first_conv.kernel - 1 - early) * unit.first_conv.dilation;
            let bent = stages::snake_value::<A>(
                x[t - back][source],
                unit.first_alpha_log@[source],
                unit.first_beta_log@[source],
            );
            let again = stages::snake_value::<A>(
                plus::<A>(unit.first_conv.bias@[middle], bent),
                unit.second_alpha_log@[middle],
                unit.second_beta_log@[middle],
            );
            unit.whole::<A>(x)[t][o] == plus::<A>(
                plus::<A>(unit.second_conv.bias@[o], again),
                x[t][o],
            )
        }),
{
    let first = unit.first_conv;
    let second = unit.second_conv;
    let near = (second.kernel - 1 - tap) * second.dilation;
    let far = (first.kernel - 1 - early) * first.dilation;
    assert(0 <= near) by (nonlinear_arith)
        requires
            near == (second.kernel - 1 - tap) * second.dilation,
            tap < second.kernel,
            0 <= second.dilation,
    ;
    assert(0 <= far) by (nonlinear_arith)
        requires
            far == (first.kernel - 1 - early) * first.dilation,
            early < first.kernel,
            0 <= first.dilation,
    ;
    let bent = stages::snake_of::<A>(x, unit.first_alpha_log@, unit.first_beta_log@);
    let spread = first.whole::<A>(bent);
    let again = stages::snake_of::<A>(spread, unit.second_alpha_log@, unit.second_beta_log@);
    assert(x[t - near - far].len() == channels);
    assert(x[t].len() == channels);
    law_convolution_reads_the_past::<A>(
        bent,
        first.input_channels as int,
        first.weight@,
        Some(first.bias@),
        first.output_channels as int,
        first.kernel as int,
        first.dilation as int,
        t - near,
        middle,
        source,
        early,
    );
    law_convolution_reads_the_past::<A>(
        again,
        second.input_channels as int,
        second.weight@,
        Some(second.bias@),
        second.output_channels as int,
        second.kernel as int,
        second.dilation as int,
        t,
        o,
        middle,
        tap,
    );
}

/// A waveform block bends, raises the rate, and passes three residual units in their order.
pub proof fn law_a_block_passes_three_units<'a, A: Arithmetic>(
    block: CodecDecoderBlockWeights<'a, A::Scalar>,
    x: Seq<Seq<A::Scalar>>,
    context: BlockContext<A::Scalar>,
    raised: Seq<Seq<A::Scalar>>,
    first: Seq<Seq<A::Scalar>>,
    second: Seq<Seq<A::Scalar>>,
)
    ensures
        raised == block.transposed.whole::<A>(
            stages::snake_of::<A>(x, block.alpha_log@, block.beta_log@),
        ) && first == block.residual_units@[0].whole::<A>(raised) && second
            == block.residual_units@[1].whole::<A>(first) ==> block.whole::<A>(x)
            == block.residual_units@[2].whole::<A>(second),
        raised == block.transposed.emitted::<A>(
            context.transposed,
            stages::snake_of::<A>(x, block.alpha_log@, block.beta_log@),
        ) && first == block.residual_units@[0].emitted::<A>(context.units[0], raised) && second
            == block.residual_units@[1].emitted::<A>(context.units[1], first)
            ==> block.emitted::<A>(context, x) == block.residual_units@[2].emitted::<A>(
            context.units[2],
            second,
        ),
{
    reveal_with_fuel(CodecDecoderBlockWeights::units_whole, 4);
    reveal_with_fuel(CodecDecoderBlockWeights::units_emitted, 4);
}

/// Every residual unit of a block counts: where all units after unit `last` are silent, the block's
/// output is that unit's, and where all three are silent it is what the transposed convolution
/// gives.
pub proof fn law_every_unit_of_a_block_counts<'a, A: Arithmetic>(
    block: CodecDecoderBlockWeights<'a, A::Scalar>,
    x: Seq<Seq<A::Scalar>>,
    last: int,
)
    requires
        algebra::units::<A>(),
        algebra::reduces::<A>(),
        block.fits(),
        -1 <= last < 3,
        forall|i: int|
            last < i < 3 ==> {
                &&& silent::<A>((#[trigger] block.residual_units@[i]).second_conv.weight@)
                &&& silent::<A>(block.residual_units@[i].second_conv.bias@)
            },
    ensures
        ({
            let raised = block.transposed.whole::<A>(
                stages::snake_of::<A>(x, block.alpha_log@, block.beta_log@),
            );
            let first = block.residual_units@[0].whole::<A>(raised);
            let second = block.residual_units@[1].whole::<A>(first);
            block.whole::<A>(x) == if last == -1 {
                raised
            } else if last == 0 {
                first
            } else if last == 1 {
                second
            } else {
                block.residual_units@[2].whole::<A>(second)
            }
        }),
{
    let channels = block.transposed.output_channels as int;
    let bent = stages::snake_of::<A>(x, block.alpha_log@, block.beta_log@);
    let raised = block.transposed.whole::<A>(bent);
    let first = block.residual_units@[0].whole::<A>(raised);
    let second = block.residual_units@[1].whole::<A>(first);
    let none = stages::no_residual_context::<A::Scalar>();
    law_a_block_passes_three_units::<A>(
        block,
        x,
        stages::no_block_context::<A::Scalar>(),
        raised,
        first,
        second,
    );
    assert(block.residual_units@[0].fits(channels));
    assert(block.residual_units@[1].fits(channels));
    assert(block.residual_units@[2].fits(channels));
    assert(rows::uniform(raised, channels));
    assert(rows::uniform(first, channels));
    assert(rows::uniform(second, channels));
    if last < 0 {
        law_a_silent_branch_leaves_the_input::<A>(
            block.residual_units@[0],
            channels,
            none,
            raised,
        );
    }
    if last < 1 {
        law_a_silent_branch_leaves_the_input::<A>(
            block.residual_units@[1],
            channels,
            none,
            first,
        );
    }
    if last < 2 {
        law_a_silent_branch_leaves_the_input::<A>(
            block.residual_units@[2],
            channels,
            none,
            second,
        );
    }
}

/// A ConvNeXt block is its input plus a scaled branch: where the scale is silent it changes nothing,
/// whatever else its weights hold and whatever it has heard before.
pub proof fn law_a_silent_convnext_leaves_the_input<'a, A: Arithmetic>(
    block: CodecConvNextWeights<'a, A::Scalar>,
    channels: int,
    history: Seq<Seq<A::Scalar>>,
    x: Seq<Seq<A::Scalar>>,
)
    requires
        algebra::units::<A>(),
        block.fits(channels),
        rows::uniform(x, channels),
        silent::<A>(block.gamma@),
    ensures
        block.whole::<A>(x, channels) == x,
        block.emitted::<A>(history, x, channels) == x,
{
    let whole = block.whole::<A>(x, channels);
    assert forall|t: int| 0 <= t < x.len() implies #[trigger] whole[t] == x[t] by {
        assert(x[t].len() == channels);
        assert(whole[t] =~= x[t]);
    }
    assert(whole =~= x);
    let emitted = block.emitted::<A>(history, x, channels);
    assert forall|t: int| 0 <= t < x.len() implies #[trigger] emitted[t] == x[t] by {
        assert(x[t].len() == channels);
        assert(emitted[t] =~= x[t]);
    }
    assert(emitted =~= x);
}

/// One path through a ConvNeXt block. Where an output channel reads one expanded channel and that
/// reads one normed channel, the output is the input's own value plus gamma times the path: the
/// LayerNorm of the depthwise frame, moved by each bias, with GELU between.
pub proof fn law_a_convnext_follows_one_path<'a, A: Arithmetic>(
    block: CodecConvNextWeights<'a, A::Scalar>,
    channels: int,
    x: Seq<Seq<A::Scalar>>,
    t: int,
    o: int,
    unit: int,
    source: int,
)
    requires
        algebra::units::<A>(),
        algebra::reduces::<A>(),
        block.fits(channels),
        rows::uniform(x, channels),
        0 <= t < x.len(),
        0 <= o < channels,
        singles_out::<A>(rows::row(block.pwconv2@, o, 4 * channels), unit),
        singles_out::<A>(rows::row(block.pwconv1@, unit, channels), source),
    ensures
        ({
            let mixed = conv::depthwise_of::<A>(
                x,
                channels,
                block.depthwise_weight@,
                block.depthwise_bias@,
                7,
            )[t];
            let normed = kernels::layer_norm_of::<A>(
                mixed,
                block.norm_weight@,
                block.norm_bias@,
                arith::cst::<A>(Constant::ConvNextEpsilon),
            );
            block.whole::<A>(x, channels)[t][o] == plus::<A>(
                x[t][o],
                times::<A>(
                    block.gamma@[o],
                    plus::<A>(
                        block.pwconv2_bias@[o],
                        kernels::gelu_of::<A>(plus::<A>(block.pwconv1_bias@[unit], normed[source])),
                    ),
                ),
            )
        }),
{
    let mixed = block.mixed::<A>(x, channels)[t];
    let normed = kernels::layer_norm_of::<A>(
        mixed,
        block.norm_weight@,
        block.norm_bias@,
        arith::cst::<A>(Constant::ConvNextEpsilon),
    );
    let inner = 4 * channels;
    assert(x[t].len() == channels);
    assert(mixed.len() == channels);
    let expanded = kernels::linear_of::<A>(
        Reduction::Dense,
        normed,
        block.pwconv1@,
        Some(block.pwconv1_bias@),
        inner,
    );
    rows::lemma_row_bounds(o, channels, inner);
    kernel_laws::law_linear_reads_its_row::<A>(
        Reduction::Dense,
        normed,
        block.pwconv1@,
        Some(block.pwconv1_bias@),
        inner,
        unit,
        source,
    );
    kernel_laws::law_linear_reads_its_row::<A>(
        Reduction::Dense,
        kernels::gelu_row::<A>(expanded),
        block.pwconv2@,
        Some(block.pwconv2_bias@),
        channels,
        o,
        unit,
    );
}

/// A latent stage raises the rate and then passes its ConvNeXt block; where that block's scale is
/// silent, the stage is its transposed convolution.
pub proof fn law_a_latent_stage_raises_then_mixes<'a, A: Arithmetic>(
    stage: CodecUpsampleStageWeights<'a, A::Scalar>,
    x: Seq<Seq<A::Scalar>>,
    context: UpsampleContext<A::Scalar>,
    raised: Seq<Seq<A::Scalar>>,
)
    requires
        algebra::units::<A>(),
        stage.fits(),
    ensures
        raised == stage.transposed.whole::<A>(x) ==> stage.whole::<A>(x)
            == stage.convnext.whole::<A>(raised, stage.transposed.output_channels as int),
        raised == stage.transposed.emitted::<A>(context.transposed, x) ==> stage.emitted::<A>(
            context,
            x,
        ) == stage.convnext.emitted::<A>(
            context.mixed,
            raised,
            stage.transposed.output_channels as int,
        ),
        silent::<A>(stage.convnext.gamma@) ==> stage.whole::<A>(x)
            == stage.transposed.whole::<A>(x),
{
    if silent::<A>(stage.convnext.gamma@) {
        law_a_silent_convnext_leaves_the_input::<A>(
            stage.convnext,
            stage.transposed.output_channels as int,
            context.mixed,
            stage.transposed.whole::<A>(x),
        );
    }
}

/// Whatever [`forward_convnext`] is called on, a block whose scale is silent returns what it was given.
pub proof fn law_a_silent_convnext_returns_its_input<'a, A: Arithmetic>(
    input: &[A::Scalar],
    frames: usize,
    channels: usize,
    weights: CodecConvNextWeights<'a, A::Scalar>,
    out: Vec<A::Scalar>,
)
    requires
        arith::pure::<A>(),
        algebra::units::<A>(),
        input@.len() == frames * channels,
        weights.fits(channels as int),
        silent::<A>(weights.gamma@),
        call_ensures(forward_convnext::<A>, (input, frames, channels, weights), out),
    ensures
        out@ == input@,
{
    rows::lemma_flatten_unstack(input@, frames as int, channels as int);
    law_a_silent_convnext_leaves_the_input::<A>(
        weights,
        channels as int,
        Seq::empty(),
        rows::unstack(input@, frames as int, channels as int),
    );
}

/// Whatever [`forward_decoder_block`] is called on, a block whose units are silent after unit `last`
/// returns that unit's output, and the output of the transposed convolution where all are.
pub proof fn law_silent_units_drop_out_of_a_block<'a, A: Arithmetic>(
    input: &[A::Scalar],
    frames: usize,
    channels: usize,
    weights: CodecDecoderBlockWeights<'a, A::Scalar>,
    result: (Vec<A::Scalar>, usize),
    raised: Seq<Seq<A::Scalar>>,
    last: int,
)
    requires
        arith::pure::<A>(),
        algebra::units::<A>(),
        algebra::reduces::<A>(),
        weights.fits(),
        channels == weights.transposed.input_channels,
        input@.len() == frames * channels,
        frames * weights.transposed.stride <= usize::MAX,
        call_ensures(forward_decoder_block::<A>, (input, frames, channels, weights), result),
        raised == weights.transposed.whole::<A>(
            stages::snake_of::<A>(
                rows::unstack(input@, frames as int, channels as int),
                weights.alpha_log@,
                weights.beta_log@,
            ),
        ),
        -1 <= last < 3,
        forall|i: int|
            last < i < 3 ==> {
                &&& silent::<A>((#[trigger] weights.residual_units@[i]).second_conv.weight@)
                &&& silent::<A>(weights.residual_units@[i].second_conv.bias@)
            },
    ensures
        ({
            let first = weights.residual_units@[0].whole::<A>(raised);
            let second = weights.residual_units@[1].whole::<A>(first);
            result.0@ == (if last == -1 {
                raised
            } else if last == 0 {
                first
            } else if last == 1 {
                second
            } else {
                weights.residual_units@[2].whole::<A>(second)
            }).flatten()
        }),
{
    law_every_unit_of_a_block_counts::<A>(
        weights,
        rows::unstack(input@, frames as int, channels as int),
        last,
    );
}

} // verus!
