//! What the speaker encoder computes, said without the way it computes it.
use vstd::prelude::*;
use crate::algebra;
use crate::algebra::{one, over, plus, silent, singles_out, sum_over, times, zero};
use crate::arith;
use crate::arith::{Arithmetic, Binary, Reduction, Unary};
use crate::kernel_laws;
use crate::rows;
use crate::speaker;
use crate::speaker::conv;
use crate::speaker::conv::Conv;
use crate::speaker::encoder;
use crate::speaker::encoder::Encoder;

verus! {

/// The unfolded input holds, for each channel in turn, what each tap reads.
proof fn lemma_column<S>(
    x: Seq<Seq<S>>,
    t: int,
    channels: int,
    kernel: int,
    dilation: int,
    c: int,
    tap: int,
)
    requires
        0 <= c < channels,
        0 <= tap < kernel,
    ensures
        conv::same_column(x, t, channels, kernel, dilation).len() == channels * kernel,
        0 <= c * kernel + tap < channels * kernel,
        conv::same_column(x, t, channels, kernel, dilation)[c * kernel + tap]
            == x[speaker::reflected(
            t + tap * dilation - dilation * (kernel - 1) / 2,
            x.len() as int,
        )][c],
{
    let blocks = Seq::new(
        channels as nat,
        |c: int|
            Seq::new(
                kernel as nat,
                |tap: int| x[conv::tap_frame(x.len() as int, t, tap, kernel, dilation)][c],
            ),
    );
    rows::lemma_flatten_row(blocks, kernel, c);
    rows::lemma_flatten_len(blocks, kernel);
    rows::lemma_row_bounds(c, channels, kernel);
    assert(rows::row(blocks.flatten(), c, kernel)[tap] == blocks[c][tap]);
}

/// A convolution that keeps the length stands centred on its frame. An output channel whose weights
/// single out one tap of one input channel gives, on top of its bias where there is one, that channel at
/// `t + tap * dilation - dilation * (kernel - 1) / 2`, mirrored at both ends.
pub proof fn law_equal_length_convolution_is_centred<A: Arithmetic>(
    x: Seq<Seq<A::Scalar>>,
    channels: int,
    weight: Seq<A::Scalar>,
    bias: Option<Seq<A::Scalar>>,
    outputs: int,
    kernel: int,
    dilation: int,
    t: int,
    o: int,
    c: int,
    tap: int,
)
    requires
        algebra::units::<A>(),
        algebra::reduces::<A>(),
        weight.len() == outputs * channels * kernel,
        0 <= t < x.len(),
        0 <= o < outputs,
        0 <= c < channels,
        0 <= tap < kernel,
        singles_out::<A>(rows::row(weight, o, channels * kernel), c * kernel + tap),
    ensures
        ({
            let out = conv::same_conv_of::<A>(
                x,
                channels,
                weight,
                bias,
                outputs,
                kernel,
                dilation,
            );
            let read = x[speaker::reflected(
                t + tap * dilation - dilation * (kernel - 1) / 2,
                x.len() as int,
            )][c];
            &&& out.len() == x.len()
            &&& out[t].len() == outputs
            &&& out[t][o] == match bias {
                Some(values) => plus::<A>(values[o], read),
                None => read,
            }
        }),
{
    lemma_column(x, t, channels, kernel, dilation, c, tap);
    assert(weight.len() == outputs * (channels * kernel)) by (nonlinear_arith)
        requires
            weight.len() == outputs * channels * kernel,
    ;
    kernel_laws::law_linear_reads_its_row::<A>(
        Reduction::ClipConvolution,
        conv::same_column(x, t, channels, kernel, dilation),
        weight,
        bias,
        outputs,
        o,
        c * kernel + tap,
    );
}

/// The convolutions of the encoder stand centred on their frames, on top of their biases.
pub proof fn law_convolution_is_centred<A: Arithmetic>(
    layer: Conv<A::Scalar>,
    x: Seq<Seq<A::Scalar>>,
    t: int,
    o: int,
    c: int,
    tap: int,
)
    requires
        algebra::units::<A>(),
        algebra::reduces::<A>(),
        layer.fits(),
        0 <= t < x.len(),
        0 <= o < layer.out_channels,
        0 <= c < layer.in_channels,
        0 <= tap < layer.kernel,
        singles_out::<A>(
            rows::row(layer.weight@, o, layer.in_channels * layer.kernel),
            c * layer.kernel + tap,
        ),
    ensures
        layer.applied::<A>(x).len() == x.len(),
        layer.applied::<A>(x)[t].len() == layer.out_channels,
        layer.applied::<A>(x)[t][o] == plus::<A>(
            layer.bias@[o],
            x[speaker::reflected(
                t + tap * layer.dilation - layer.dilation * (layer.kernel - 1) / 2,
                x.len() as int,
            )][c],
        ),
{
    law_equal_length_convolution_is_centred::<A>(
        x,
        layer.in_channels as int,
        layer.weight@,
        Some(layer.bias@),
        layer.out_channels as int,
        layer.kernel as int,
        layer.dilation as int,
        t,
        o,
        c,
        tap,
    );
}

/// A convolution without weights answers its bias in every frame, and raised to zero at least where
/// it is activated.
pub proof fn law_silent_convolution_is_its_bias<A: Arithmetic>(
    layer: Conv<A::Scalar>,
    x: Seq<Seq<A::Scalar>>,
    t: int,
)
    requires
        algebra::units::<A>(),
        algebra::reduces::<A>(),
        layer.fits(),
        silent::<A>(layer.weight@),
        0 <= t < x.len(),
    ensures
        layer.applied::<A>(x).len() == x.len(),
        layer.applied::<A>(x)[t] == layer.bias@,
        layer.activated::<A>(x)[t] == conv::relu_of::<A>(layer.bias@),
{
    let channels = layer.in_channels as int;
    let kernel = layer.kernel as int;
    let blocks = Seq::new(
        channels as nat,
        |c: int|
            Seq::new(
                kernel as nat,
                |tap: int|
                    x[conv::tap_frame(x.len() as int, t, tap, kernel, layer.dilation as int)][c],
            ),
    );
    rows::lemma_flatten_len(blocks, kernel);
    assert(layer.weight@.len() == layer.out_channels * (channels * kernel)) by (nonlinear_arith)
        requires
            layer.weight@.len() == layer.out_channels * channels * kernel,
    ;
    kernel_laws::law_silent_linear_is_its_bias::<A>(
        Reduction::ClipConvolution,
        conv::same_column(x, t, channels, kernel, layer.dilation as int),
        layer.weight@,
        Some(layer.bias@),
        layer.out_channels as int,
    );
}

/// Activation keeps a value that is the larger of itself and zero, and gives zero where zero is.
pub proof fn law_activation_keeps_or_drops<A: Arithmetic>(x: Seq<A::Scalar>, i: int)
    requires
        0 <= i < x.len(),
    ensures
        conv::relu_of::<A>(x).len() == x.len(),
        arith::bin::<A>(Binary::Max, x[i], zero::<A>()) == x[i] ==> conv::relu_of::<A>(x)[i]
            == x[i],
        arith::bin::<A>(Binary::Max, x[i], zero::<A>()) == zero::<A>() ==> conv::relu_of::<A>(x)[i]
            == zero::<A>(),
{
}

/// A block is its input plus its gated branch: where the last convolution of the branch answers only
/// zeros, the block changes nothing, whichever of the three it is.
pub proof fn law_a_silent_branch_leaves_the_input<A: Arithmetic>(
    encoder: Encoder<A>,
    b: int,
    x: Seq<Seq<A::Scalar>>,
)
    requires
        algebra::units::<A>(),
        algebra::reduces::<A>(),
        arith::bin::<A>(Binary::Max, zero::<A>(), zero::<A>()) == zero::<A>(),
        encoder.wf(),
        0 <= b < 3,
        rows::uniform(x, 512),
        silent::<A>(encoder.conv(11 * b + 8).weight@),
        silent::<A>(encoder.conv(11 * b + 8).bias@),
    ensures
        encoder.block_of(b, x) == x,
{
    encoder.lemma_parts();
    let first = encoder.conv(11 * b + 7).activated::<A>(x);
    let chained = encoder::res2net_of::<A>(encoder.branches(b), first, 64);
    let last = encoder.conv(11 * b + 8);
    let second = last.activated::<A>(chained);
    let out = encoder.block_of(b, x);
    assert(last.fits());
    assert((11 * b + 8) / 11 == b && (11 * b + 8) % 11 == 8);
    assert(last.out_channels == 512);
    assert(chained.len() == x.len());
    assert forall|t: int| 0 <= t < x.len() implies #[trigger] out[t] == x[t] by {
        law_silent_convolution_is_its_bias::<A>(last, chained, t);
        assert(x[t].len() == 512);
        assert(second[t].len() == 512);
        assert(silent::<A>(second[t]));
        assert(out[t] =~= x[t]);
    }
    assert(out =~= x);
}

/// A block in its parts: an activated convolution, the chained groups, another activated
/// convolution, a gate on each channel, and the input added back.
pub proof fn law_a_block_gates_its_branch_and_adds_its_input<A: Arithmetic>(
    encoder: Encoder<A>,
    b: int,
    x: Seq<Seq<A::Scalar>>,
    second: Seq<Seq<A::Scalar>>,
    gate: Seq<A::Scalar>,
    t: int,
    c: int,
)
    requires
        algebra::units::<A>(),
        encoder.wf(),
        0 <= b < 3,
        rows::uniform(x, 512),
        second == encoder.conv(11 * b + 8).activated::<A>(
            encoder::res2net_of::<A>(
                encoder.branches(b),
                encoder.conv(11 * b + 7).activated::<A>(x),
                64,
            ),
        ),
        gate == encoder::gate_of::<A>(
            encoder.conv(11 * b + 9),
            encoder.conv(11 * b + 10),
            second,
            512,
        ),
        0 <= t < x.len(),
        0 <= c < 512,
    ensures
        encoder.block_of(b, x).len() == x.len(),
        encoder.block_of(b, x)[t].len() == 512,
        x[t][c] == zero::<A>() && gate[c] == one::<A>() ==> encoder.block_of(b, x)[t][c]
            == second[t][c],
        x[t][c] == zero::<A>() && second[t][c] == one::<A>() ==> encoder.block_of(b, x)[t][c]
            == gate[c],
        gate[c] == zero::<A>() ==> encoder.block_of(b, x)[t][c] == x[t][c],
        gate[c] == one::<A>() ==> encoder.block_of(b, x)[t][c] == plus::<A>(
            second[t][c],
            x[t][c],
        ),
{
    encoder.lemma_parts();
    assert((11 * b + 8) / 11 == b && (11 * b + 8) % 11 == 8);
    assert(encoder.conv(11 * b + 8).out_channels == 512);
    assert(x[t].len() == 512);
    assert(second[t].len() == 512);
}

/// One place of an ordered sum of frames is the sum of the frames' values there.
proof fn lemma_frames_sum<A: Arithmetic>(x: Seq<Seq<A::Scalar>>, channels: int, n: int, c: int)
    requires
        algebra::additive::<A>(),
        rows::uniform(x, channels),
        0 <= n <= x.len(),
        0 <= c < channels,
    ensures
        encoder::frames_sum::<A>(x, channels, n).len() == channels,
        encoder::frames_sum::<A>(x, channels, n)[c] == sum_over::<A>(|t: int| x[t][c], n),
    decreases n,
{
    let term = |t: int| x[t][c];
    if n > 0 {
        lemma_frames_sum::<A>(x, channels, n - 1, c);
        algebra::lemma_commutes::<A>(
            encoder::frames_sum::<A>(x, channels, n - 1)[c],
            term(n - 1),
        );
        assert(sum_over::<A>(term, n) == plus::<A>(term(n - 1), sum_over::<A>(term, n - 1)));
    }
}

/// A channel is weighed by a squeezed mean over time. Where channel `o` of the wide layer reads one
/// unit of the narrow layer and that reads one channel, the weight is the sigmoid of the wide bias and
/// the activated narrow bias and mean; the mean is the sum over all frames times one over their
/// number. A sigmoid times `1 + exp(-x)` is one, wherever that divisor can be divided by.
pub proof fn law_channels_are_weighed_by_their_mean<A: Arithmetic>(
    narrow: Conv<A::Scalar>,
    wide: Conv<A::Scalar>,
    x: Seq<Seq<A::Scalar>>,
    channels: int,
    o: int,
    unit: int,
    source: int,
    inside: A::Scalar,
)
    requires
        algebra::units::<A>(),
        algebra::additive::<A>(),
        algebra::reduces::<A>(),
        rows::uniform(x, channels),
        0 <= channels,
        narrow.fits(),
        wide.fits(),
        narrow.kernel == 1,
        wide.kernel == 1,
        narrow.in_channels == channels,
        wide.in_channels == narrow.out_channels,
        0 <= o < wide.out_channels,
        0 <= unit < narrow.out_channels,
        0 <= source < channels,
        singles_out::<A>(rows::row(wide.weight@, o, wide.in_channels as int), unit),
        singles_out::<A>(rows::row(narrow.weight@, unit, channels), source),
        ({
            let mean = times::<A>(
                sum_over::<A>(|t: int| x[t][source], x.len() as int),
                over::<A>(one::<A>(), arith::num::<A>(x.len() as usize)),
            );
            inside == plus::<A>(
                wide.bias@[o],
                arith::bin::<A>(Binary::Max, plus::<A>(narrow.bias@[unit], mean), zero::<A>()),
            )
        }),
        ({
            let divisor = plus::<A>(
                one::<A>(),
                arith::un::<A>(Unary::Exp, arith::un::<A>(Unary::Neg, inside)),
            );
            times::<A>(over::<A>(one::<A>(), divisor), divisor) == one::<A>()
        }),
    ensures
        encoder::gate_of::<A>(narrow, wide, x, channels).len() == wide.out_channels,
        times::<A>(
            encoder::gate_of::<A>(narrow, wide, x, channels)[o],
            plus::<A>(
                one::<A>(),
                arith::un::<A>(Unary::Exp, arith::un::<A>(Unary::Neg, inside)),
            ),
        ) == one::<A>(),
{
    let n = x.len() as int;
    let sums = encoder::frames_sum::<A>(x, channels, n);
    lemma_frames_sum::<A>(x, channels, n, source);
    let pooled = encoder::scaled_of::<A>(sums, encoder::share_of::<A>(n));
    assert(unit * 1 + 0 == unit);
    assert(source * 1 + 0 == source);
    assert(narrow.in_channels * narrow.kernel == channels) by (nonlinear_arith)
        requires
            narrow.in_channels == channels,
            narrow.kernel == 1,
    ;
    assert(wide.in_channels * wide.kernel == wide.in_channels) by (nonlinear_arith)
        requires
            wide.kernel == 1,
    ;
    assert(speaker::reflected(0, 1) == 0);
    law_convolution_is_centred::<A>(narrow, seq![pooled], 0, unit, source, 0);
    let squeezed = narrow.activated::<A>(seq![pooled]);
    law_convolution_is_centred::<A>(wide, squeezed, 0, o, unit, 0);
}

/// The groups of a row are chained. The first group passes as it is; the second passes its own
/// convolution; every later one passes its convolution after the group before it has been added.
/// Each group's result stands where the group stood.
pub proof fn law_groups_are_chained<A: Arithmetic>(
    branches: Seq<Conv<A::Scalar>>,
    x: Seq<Seq<A::Scalar>>,
    t: int,
    k: int,
    before: Seq<Seq<A::Scalar>>,
)
    requires
        branches.len() == 7,
        forall|i: int|
            0 <= i < 7 ==> (#[trigger] branches[i]).fits() && branches[i].out_channels == 64,
        rows::uniform(x, 512),
        0 <= t < x.len(),
        0 <= k < 8,
        before.len() == x.len(),
        rows::uniform(before, 64),
        k >= 2 ==> forall|s: int|
            0 <= s < x.len() ==> #[trigger] before[s] == rows::row(
                encoder::res2net_of::<A>(branches, x, 64)[s],
                k - 1,
                64,
            ),
    ensures
        encoder::res2net_of::<A>(branches, x, 64).len() == x.len(),
        encoder::res2net_of::<A>(branches, x, 64)[t].len() == 512,
        ({
            let out = rows::row(encoder::res2net_of::<A>(branches, x, 64)[t], k, 64);
            let own = Seq::new(x.len(), |s: int| x[s].subrange(k * 64, k * 64 + 64));
            let both = Seq::new(
                x.len(),
                |s: int| Seq::new(64, |i: int| plus::<A>(x[s][k * 64 + i], before[s][i])),
            );
            if k == 0 {
                out == x[t].subrange(0, 64)
            } else if k == 1 {
                out == branches[0].activated::<A>(own)[t]
            } else {
                out == branches[k - 1].activated::<A>(both)[t]
            }
        }),
{
    lemma_group::<A>(branches, x, t, k);
    let own = Seq::new(x.len(), |s: int| x[s].subrange(k * 64, k * 64 + 64));
    assert(own =~= encoder::group_of(x, k, 64));
    if k == 0 {
        assert(encoder::chain_of::<A>(branches, x, 64, 0)[t] =~= x[t].subrange(0, 64));
    }
    if k >= 2 {
        let earlier = encoder::chain_of::<A>(branches, x, 64, k - 1);
        lemma_chain::<A>(branches, x, k - 1);
        assert forall|s: int| 0 <= s < x.len() implies #[trigger] earlier[s] == before[s] by {
            lemma_group::<A>(branches, x, s, k - 1);
            assert(before[s] == rows::row(
                encoder::res2net_of::<A>(branches, x, 64)[s],
                k - 1,
                64,
            ));
        }
        assert(earlier =~= before);
        let both = Seq::new(
            x.len(),
            |s: int| Seq::new(64, |i: int| plus::<A>(x[s][k * 64 + i], before[s][i])),
        );
        let added = encoder::added_of::<A>(encoder::group_of(x, k, 64), before);
        assert forall|s: int| 0 <= s < x.len() implies #[trigger] added[s] == both[s] by {
            assert(x[s].len() == 512);
            assert(added[s] =~= both[s]);
        }
        assert(added =~= both);
    }
}

/// A chained group has one row of its width per frame.
proof fn lemma_chain<A: Arithmetic>(
    branches: Seq<Conv<A::Scalar>>,
    x: Seq<Seq<A::Scalar>>,
    k: int,
)
    requires
        branches.len() == 7,
        forall|i: int|
            0 <= i < 7 ==> (#[trigger] branches[i]).fits() && branches[i].out_channels == 64,
        rows::uniform(x, 512),
        0 <= k < 8,
    ensures
        encoder::chain_of::<A>(branches, x, 64, k).len() == x.len(),
        rows::uniform(encoder::chain_of::<A>(branches, x, 64, k), 64),
    decreases k,
{
    let chain = encoder::chain_of::<A>(branches, x, 64, k);
    if k >= 1 {
        assert(branches[k - 1].fits() && branches[k - 1].out_channels == 64);
        if k >= 2 {
            lemma_chain::<A>(branches, x, k - 1);
        }
    } else {
        assert forall|t: int| 0 <= t < chain.len() implies (#[trigger] chain[t]).len() == 64 by {
            assert(x[t].len() == 512);
        }
    }
}

/// Group `k` of a chained row.
proof fn lemma_group<A: Arithmetic>(
    branches: Seq<Conv<A::Scalar>>,
    x: Seq<Seq<A::Scalar>>,
    t: int,
    k: int,
)
    requires
        branches.len() == 7,
        forall|i: int|
            0 <= i < 7 ==> (#[trigger] branches[i]).fits() && branches[i].out_channels == 64,
        rows::uniform(x, 512),
        0 <= t < x.len(),
        0 <= k < 8,
    ensures
        encoder::res2net_of::<A>(branches, x, 64)[t].len() == 512,
        rows::row(encoder::res2net_of::<A>(branches, x, 64)[t], k, 64)
            == encoder::chain_of::<A>(branches, x, 64, k)[t],
{
    let parts = Seq::new(8, |j: int| encoder::chain_of::<A>(branches, x, 64, j)[t]);
    assert forall|j: int| 0 <= j < parts.len() implies (#[trigger] parts[j]).len() == 64 by {
        lemma_chain::<A>(branches, x, j);
        assert(encoder::chain_of::<A>(branches, x, 64, j)[t].len() == 64);
    }
    rows::lemma_flatten_row(parts, 64, k);
    rows::lemma_flatten_len(parts, 64);
}

/// A frame of joined features holds the features of the three blocks, one after the other.
pub proof fn law_three_blocks_are_joined<A: Arithmetic>(
    encoder: Encoder<A>,
    h1: Seq<Seq<A::Scalar>>,
    h2: Seq<Seq<A::Scalar>>,
    h3: Seq<Seq<A::Scalar>>,
    t: int,
    c: int,
)
    requires
        h2.len() == h1.len(),
        h3.len() == h1.len(),
        rows::uniform(h1, 512),
        rows::uniform(h2, 512),
        rows::uniform(h3, 512),
        0 <= t < h1.len(),
        0 <= c < 512,
    ensures
        encoder.joined_of(h1, h2, h3).len() == h1.len(),
        encoder.joined_of(h1, h2, h3)[t].len() == 1_536,
        encoder.joined_of(h1, h2, h3)[t][c] == h1[t][c],
        encoder.joined_of(h1, h2, h3)[t][512 + c] == h2[t][c],
        encoder.joined_of(h1, h2, h3)[t][1_024 + c] == h3[t][c],
{
    assert(h1[t].len() == 512 && h2[t].len() == 512 && h3[t].len() == 512);
}

/// A voice passes the first convolution and three blocks, all three of which are joined, mixed,
/// pooled and projected.
pub proof fn law_encoding_passes_every_part<A: Arithmetic>(
    encoder: Encoder<A>,
    mel: Seq<Seq<A::Scalar>>,
    h0: Seq<Seq<A::Scalar>>,
    h1: Seq<Seq<A::Scalar>>,
    h2: Seq<Seq<A::Scalar>>,
    h3: Seq<Seq<A::Scalar>>,
    hidden: Seq<Seq<A::Scalar>>,
)
    requires
        h0 == encoder.conv(33).activated::<A>(mel),
        h1 == encoder.block_of(0, h0),
        h2 == encoder.block_of(1, h1),
        h3 == encoder.block_of(2, h2),
        hidden == encoder.conv(34).activated::<A>(encoder.joined_of(h1, h2, h3)),
    ensures
        encoder.initial_of(mel) == h0,
        encoder.encoded_of(mel) == encoder.aggregated_of(h1, h2, h3),
        encoder.aggregated_of(h1, h2, h3) == encoder.conv(37).applied::<A>(
            seq![encoder.pooled_of(hidden)],
        )[0],
{
}

/// The voice of a clip whose blocks have nothing to add is that of its first convolution: where the
/// last convolutions of all three branches are silent, the three joined features are one.
pub proof fn law_silent_blocks_leave_the_first_convolution<A: Arithmetic>(
    encoder: Encoder<A>,
    mel: Seq<Seq<A::Scalar>>,
)
    requires
        algebra::units::<A>(),
        algebra::reduces::<A>(),
        arith::bin::<A>(Binary::Max, zero::<A>(), zero::<A>()) == zero::<A>(),
        encoder.wf(),
        silent::<A>(encoder.conv(8).weight@),
        silent::<A>(encoder.conv(8).bias@),
        silent::<A>(encoder.conv(19).weight@),
        silent::<A>(encoder.conv(19).bias@),
        silent::<A>(encoder.conv(30).weight@),
        silent::<A>(encoder.conv(30).bias@),
    ensures
        ({
            let h = encoder.initial_of(mel);
            encoder.encoded_of(mel) == encoder.aggregated_of(h, h, h)
        }),
{
    encoder.lemma_parts();
    let h = encoder.initial_of(mel);
    assert(encoder.conv(33).out_channels == 512);
    assert(rows::uniform(h, 512));
    law_a_silent_branch_leaves_the_input::<A>(encoder, 0, h);
    law_a_silent_branch_leaves_the_input::<A>(encoder, 1, h);
    law_a_silent_branch_leaves_the_input::<A>(encoder, 2, h);
}

/// Whatever [`Encoder::se_res2net_block`] is called on, a block whose branch is silent returns what it
/// was given.
pub proof fn law_a_silent_block_returns_its_input<A: Arithmetic>(
    encoder: &Encoder<A>,
    index: usize,
    input: &[A::Scalar],
    frames: usize,
    out: Vec<A::Scalar>,
)
    requires
        arith::pure::<A>(),
        algebra::units::<A>(),
        algebra::reduces::<A>(),
        arith::bin::<A>(Binary::Max, zero::<A>(), zero::<A>()) == zero::<A>(),
        encoder.wf(),
        1 <= index <= 3,
        input@.len() == frames * 512,
        2 * frames + 8 <= isize::MAX,
        silent::<A>(encoder.conv(11 * (index - 1) + 8).weight@),
        silent::<A>(encoder.conv(11 * (index - 1) + 8).bias@),
        call_ensures(Encoder::<A>::se_res2net_block, (encoder, index, input, frames), out),
    ensures
        out@ == input@,
{
    rows::lemma_flatten_unstack(input@, frames as int, 512);
    law_a_silent_branch_leaves_the_input::<A>(
        *encoder,
        index - 1,
        rows::unstack(input@, frames as int, 512),
    );
}

/// Whatever [`Encoder::encode`] is called on, the vector it returns is the last layer's answer to the
/// pooled mix of all three blocks, each of which reads the one before.
pub proof fn law_voices_pass_every_part<A: Arithmetic>(
    encoder: &Encoder<A>,
    mel: &[A::Scalar],
    frames: usize,
    vector: Vec<A::Scalar>,
    h1: Seq<Seq<A::Scalar>>,
    h2: Seq<Seq<A::Scalar>>,
    h3: Seq<Seq<A::Scalar>>,
    hidden: Seq<Seq<A::Scalar>>,
)
    requires
        arith::pure::<A>(),
        encoder.wf(),
        frames > 0,
        mel@.len() == frames * 128,
        frames * 1_536 <= usize::MAX,
        2 * frames + 8 <= isize::MAX,
        call_ensures(Encoder::<A>::encode, (encoder, mel, frames), vector),
        h1 == encoder.block_of(
            0,
            encoder.conv(33).activated::<A>(rows::unstack(mel@, frames as int, 128)),
        ),
        h2 == encoder.block_of(1, h1),
        h3 == encoder.block_of(2, h2),
        hidden == encoder.conv(34).activated::<A>(encoder.joined_of(h1, h2, h3)),
    ensures
        vector@.len() == 1_024,
        vector@ == encoder.conv(37).applied::<A>(seq![encoder.pooled_of(hidden)])[0],
{
}

/// The convolutions of the encoder have fixed kernels and dilations: those of the chained groups reach
/// further with every block, and all others but the first see one frame.
pub proof fn law_convolutions_have_their_geometry<A: Arithmetic>(encoder: Encoder<A>, b: int, k: int)
    requires
        encoder.wf(),
        0 <= b < 3,
        0 <= k < 11,
    ensures
        k < 7 ==> encoder.conv(11 * b + k).kernel == 3 && encoder.conv(11 * b + k).dilation == b
            + 2,
        k >= 7 ==> encoder.conv(11 * b + k).kernel == 1,
        encoder.conv(33).kernel == 5,
        encoder.conv(33).dilation == 1,
        encoder.conv(34).kernel == 1,
        encoder.conv(35).kernel == 1,
        encoder.conv(36).kernel == 1,
        encoder.conv(37).kernel == 1,
{
    encoder.lemma_parts();
    assert((11 * b + k) / 11 == b && (11 * b + k) % 11 == k);
    let layer = encoder.conv(11 * b + k);
    assert(layer.fits());
    assert(encoder.conv(33).fits());
    assert(encoder.conv(34).fits());
    assert(encoder.conv(35).fits());
    assert(encoder.conv(36).fits());
    assert(encoder.conv(37).fits());
}

} // verus!
