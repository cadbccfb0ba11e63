//! Causal convolutions over time-major frames, whole and streamed.
//!
//! A causal stage reads only the present and the past, so what it emits for a packet is decided
//! by the packet and by a bounded number of earlier input frames. Each stream keeps exactly those
//! frames, and the laws below say that no packet schedule can be told from the whole sequence.
use vstd::prelude::*;
use crate::arith;
use crate::arith::{
    binary, constant, reduce, Arithmetic, Binary, Constant, Reduction,
};
use crate::kernels;
use crate::kernels::linear;
use crate::rows;
use crate::rows::{join_rows, split_rows, store};

verus! {

/// The last `n` frames, or all of them where there are fewer.
pub open spec fn latest<T>(x: Seq<T>, n: int) -> Seq<T> {
    if x.len() <= n {
        x
    } else {
        x.subrange(x.len() - n, x.len() as int)
    }
}

/// What a tap reads: channel `c` of the frame `past` before `t`, and zero before the first frame.
pub open spec fn tap_value<A: Arithmetic>(
    x: Seq<Seq<A::Scalar>>,
    t: int,
    c: int,
    past: int,
) -> A::Scalar {
    if t - past >= 0 {
        x[t - past][c]
    } else {
        arith::cst::<A>(Constant::Zero)
    }
}

/// The unfolded input of output frame `t`, channel by channel, the oldest tap first.
pub open spec fn column_of<A: Arithmetic>(
    x: Seq<Seq<A::Scalar>>,
    t: int,
    channels: int,
    kernel: int,
    dilation: int,
) -> Seq<A::Scalar> {
    Seq::new(
        channels as nat,
        |c: int|
            Seq::new(
                kernel as nat,
                |tap: int| tap_value::<A>(x, t, c, (kernel - 1 - tap) * dilation),
            ),
    ).flatten()
}

/// A causal convolution: one seeded reduction per output frame and channel.
pub open spec fn conv_of<A: Arithmetic>(
    x: Seq<Seq<A::Scalar>>,
    input_channels: int,
    weight: Seq<A::Scalar>,
    bias: Option<Seq<A::Scalar>>,
    output_channels: int,
    kernel: int,
    dilation: int,
) -> Seq<Seq<A::Scalar>> {
    Seq::new(
        x.len(),
        |t: int|
            kernels::linear_of::<A>(
                Reduction::SeededConvolution,
                column_of::<A>(x, t, input_channels, kernel, dilation),
                weight,
                bias,
                output_channels,
            ),
    )
}

/// The weights that carry one input frame to tap `tap` of output channel `o`.
pub open spec fn transposed_weights<T>(
    weight: Seq<T>,
    input_channels: int,
    output_channels: int,
    kernel: int,
    o: int,
    tap: int,
) -> Seq<T> {
    Seq::new(
        input_channels as nat,
        |c: int| weight[(c * output_channels + o) * kernel + tap],
    )
}

/// The input frame whose tap `tap` lands on output sample `t`, where there is one.
pub open spec fn landing_frame(t: int, tap: int, stride: int, frames: int) -> Option<int> {
    if tap <= t && (t - tap) % stride == 0 && (t - tap) / stride < frames {
        Some((t - tap) / stride)
    } else {
        None
    }
}

/// The contributions of the first `n` taps to one output sample, ascending from zero.
pub open spec fn transposed_sum<A: Arithmetic>(
    x: Seq<Seq<A::Scalar>>,
    weight: Seq<A::Scalar>,
    input_channels: int,
    output_channels: int,
    kernel: int,
    stride: int,
    t: int,
    o: int,
    n: int,
) -> A::Scalar
    decreases n,
{
    if n <= 0 {
        arith::cst::<A>(Constant::Zero)
    } else {
        let before = transposed_sum::<A>(
            x,
            weight,
            input_channels,
            output_channels,
            kernel,
            stride,
            t,
            o,
            n - 1,
        );
        match landing_frame(t, n - 1, stride, x.len() as int) {
            Some(frame) => arith::bin::<A>(
                Binary::Add,
                before,
                arith::red::<A>(
                    Reduction::Convolution,
                    x[frame],
                    transposed_weights(
                        weight,
                        input_channels,
                        output_channels,
                        kernel,
                        o,
                        n - 1,
                    ),
                    None,
                ),
            ),
            None => before,
        }
    }
}

/// One output sample: its taps' sum, then the bias where there is one.
pub open spec fn transposed_sample<A: Arithmetic>(
    x: Seq<Seq<A::Scalar>>,
    weight: Seq<A::Scalar>,
    bias: Option<Seq<A::Scalar>>,
    input_channels: int,
    output_channels: int,
    kernel: int,
    stride: int,
    t: int,
    o: int,
) -> A::Scalar {
    let sum = transposed_sum::<A>(
        x,
        weight,
        input_channels,
        output_channels,
        kernel,
        stride,
        t,
        o,
        kernel,
    );
    match bias {
        Some(values) => arith::bin::<A>(Binary::Add, sum, values[o]),
        None => sum,
    }
}

/// A causal transposed convolution, trimmed to `stride` output frames per input frame.
pub open spec fn transposed_of<A: Arithmetic>(
    x: Seq<Seq<A::Scalar>>,
    input_channels: int,
    weight: Seq<A::Scalar>,
    bias: Option<Seq<A::Scalar>>,
    output_channels: int,
    kernel: int,
    stride: int,
) -> Seq<Seq<A::Scalar>> {
    Seq::new(
        (x.len() * stride) as nat,
        |t: int|
            Seq::new(
                output_channels as nat,
                |o: int|
                    transposed_sample::<A>(
                        x,
                        weight,
                        bias,
                        input_channels,
                        output_channels,
                        kernel,
                        stride,
                        t,
                        o,
                    ),
            ),
    )
}

/// The first `n` taps of one depthwise output value, from the channel's bias.
pub open spec fn depthwise_sum<A: Arithmetic>(
    x: Seq<Seq<A::Scalar>>,
    weight: Seq<A::Scalar>,
    bias: Seq<A::Scalar>,
    kernel: int,
    t: int,
    c: int,
    n: int,
) -> A::Scalar
    decreases n,
{
    if n <= 0 {
        bias[c]
    } else {
        let before = depthwise_sum::<A>(x, weight, bias, kernel, t, c, n - 1);
        let source = t - (kernel - 1 - (n - 1));
        if source >= 0 {
            arith::bin::<A>(
                Binary::Add,
                before,
                arith::bin::<A>(Binary::Mul, x[source][c], weight[c * kernel + n - 1]),
            )
        } else {
            before
        }
    }
}

/// A causal depthwise convolution.
pub open spec fn depthwise_of<A: Arithmetic>(
    x: Seq<Seq<A::Scalar>>,
    channels: int,
    weight: Seq<A::Scalar>,
    bias: Seq<A::Scalar>,
    kernel: int,
) -> Seq<Seq<A::Scalar>> {
    Seq::new(
        x.len(),
        |t: int|
            Seq::new(
                channels as nat,
                |c: int| depthwise_sum::<A>(x, weight, bias, kernel, t, c, kernel),
            ),
    )
}

/// The unfolded input of one output frame.
fn column<A: Arithmetic>(
    x: &Vec<Vec<A::Scalar>>,
    t: usize,
    channels: usize,
    kernel: usize,
    dilation: usize,
) -> (out: Vec<A::Scalar>)
    requires
        t < x@.len(),
        rows::uniform(rows::deep(x@), channels as int),
        kernel > 0,
        (kernel - 1) * dilation <= usize::MAX,
    ensures
        out@.len() == channels * kernel,
        arith::pure::<A>() ==> out@ == column_of::<A>(
            rows::deep(x@),
            t as int,
            channels as int,
            kernel as int,
            dilation as int,
        ),
{
    let zero = constant::<A>(Constant::Zero);
    let ghost frames = rows::deep(x@);
    let mut blocks: Vec<Vec<A::Scalar>> = Vec::new();
    for c in 0..channels
        invariant
            t < x@.len(),
            frames == rows::deep(x@),
            rows::uniform(frames, channels as int),
            kernel > 0,
            (kernel - 1) * dilation <= usize::MAX,
            arith::pure::<A>() ==> zero == arith::cst::<A>(Constant::Zero),
            blocks@.len() == c,
            rows::uniform(rows::deep(blocks@), kernel as int),
            arith::pure::<A>() ==> forall|j: int, tap: int|
                0 <= j < c && 0 <= tap < kernel ==> #[trigger] blocks@[j]@[tap] == tap_value::<A>(
                    frames,
                    t as int,
                    j,
                    (kernel - 1 - tap) * dilation,
                ),
    {
        let mut block: Vec<A::Scalar> = Vec::new();
        for tap in 0..kernel
            invariant
                c < channels,
                t < x@.len(),
                frames == rows::deep(x@),
                rows::uniform(frames, channels as int),
                kernel > 0,
                (kernel - 1) * dilation <= usize::MAX,
                arith::pure::<A>() ==> zero == arith::cst::<A>(Constant::Zero),
                block@.len() == tap,
                arith::pure::<A>() ==> forall|j: int|
                    0 <= j < tap ==> #[trigger] block@[j] == tap_value::<A>(
                        frames,
                        t as int,
                        c as int,
                        (kernel - 1 - j) * dilation,
                    ),
        {
            proof {
                assert(0 <= (kernel - 1 - tap) * dilation <= (kernel - 1) * dilation)
                    by (nonlinear_arith)
                    requires
                        0 <= tap < kernel,
                        0 <= dilation,
                ;
            }
            let past: usize = (kernel - 1 - tap) * dilation;
            if past <= t {
                proof {
                    assert(frames[t - past].len() == channels);
                    assert(frames[t - past] == x@[t - past]@);
                }
                block.push(x[t - past][c]);
            } else {
                block.push(zero);
            }
        }
        let ghost before = blocks@;
        blocks.push(block);
        proof {
            assert forall|i: int| 0 <= i < rows::deep(blocks@).len() implies (
            #[trigger] rows::deep(blocks@)[i]).len() == kernel by {
                if i < c {
                    assert(rows::deep(before)[i].len() == kernel);
                }
            }
        }
    }
    let out = join_rows(&blocks);
    proof {
        rows::lemma_flatten_len(rows::deep(blocks@), kernel as int);
        if arith::pure::<A>() {
            let want = Seq::new(
                channels as nat,
                |c: int|
                    Seq::new(
                        kernel as nat,
                        |tap: int|
                            tap_value::<A>(frames, t as int, c, (kernel - 1 - tap) * dilation),
                    ),
            );
            assert forall|i: int| 0 <= i < channels implies rows::deep(blocks@)[i] == want[i] by {
                assert(rows::deep(blocks@)[i].len() == kernel);
                assert forall|tap: int| 0 <= tap < kernel implies blocks@[i]@[tap]
                    == want[i][tap] by {}
                assert(rows::deep(blocks@)[i] =~= want[i]);
            }
            assert(rows::deep(blocks@) =~= want);
        }
    }
    out
}

/// A causal convolution over rows.
pub fn conv_rows<A: Arithmetic>(
    x: &Vec<Vec<A::Scalar>>,
    input_channels: usize,
    weight: &[A::Scalar],
    bias: Option<&[A::Scalar]>,
    output_channels: usize,
    kernel: usize,
    dilation: usize,
) -> (out: Vec<Vec<A::Scalar>>)
    requires
        rows::uniform(rows::deep(x@), input_channels as int),
        weight@.len() == output_channels * input_channels * kernel,
        bias matches Some(b) ==> b@.len() == output_channels,
        kernel > 0,
        (kernel - 1) * dilation <= usize::MAX,
    ensures
        out@.len() == x@.len(),
        rows::uniform(rows::deep(out@), output_channels as int),
        arith::pure::<A>() ==> rows::deep(out@) == conv_of::<A>(
            rows::deep(x@),
            input_channels as int,
            weight@,
            kernels::opt_view(bias),
            output_channels as int,
            kernel as int,
            dilation as int,
        ),
{
    let mut out: Vec<Vec<A::Scalar>> = Vec::new();
    proof {
        assert(output_channels * input_channels * kernel == output_channels * (input_channels
            * kernel)) by (nonlinear_arith);
    }
    for t in 0..x.len()
        invariant
            rows::uniform(rows::deep(x@), input_channels as int),
            weight@.len() == output_channels * (input_channels * kernel),
            bias matches Some(b) ==> b@.len() == output_channels,
            kernel > 0,
            (kernel - 1) * dilation <= usize::MAX,
            out@.len() == t,
            forall|j: int| 0 <= j < t ==> (#[trigger] out@[j])@.len() == output_channels,
            arith::pure::<A>() ==> forall|j: int|
                0 <= j < t ==> (#[trigger] out@[j])@ == conv_of::<A>(
                    rows::deep(x@),
                    input_channels as int,
                    weight@,
                    kernels::opt_view(bias),
                    output_channels as int,
                    kernel as int,
                    dilation as int,
                )[j],
    {
        let unfolded = column::<A>(x, t, input_channels, kernel, dilation);
        out.push(
            linear::<A>(
                Reduction::SeededConvolution,
                unfolded.as_slice(),
                weight,
                bias,
                output_channels,
            ),
        );
    }
    proof {
        if arith::pure::<A>() {
            assert(rows::deep(out@) =~= conv_of::<A>(
                rows::deep(x@),
                input_channels as int,
                weight@,
                kernels::opt_view(bias),
                output_channels as int,
                kernel as int,
                dilation as int,
            ));
        }
    }
    out
}

/// Causal convolution of time-major `[frames, input_channels]` data, zero before the first
/// frame. Weights are laid out `[output_channel, input_channel, kernel]`.
pub fn causal_conv1d<A: Arithmetic>(
    input: &[A::Scalar],
    frames: usize,
    input_channels: usize,
    weight: &[A::Scalar],
    bias: Option<&[A::Scalar]>,
    output_channels: usize,
    kernel: usize,
    dilation: usize,
    output: &mut [A::Scalar],
)
    requires
        input@.len() == frames * input_channels,
        weight@.len() == output_channels * input_channels * kernel,
        old(output)@.len() == frames * output_channels,
        kernel > 0,
        dilation > 0,
        (kernel - 1) * dilation <= usize::MAX,
        bias matches Some(b) ==> b@.len() == output_channels,
    ensures
        final(output)@.len() == old(output)@.len(),
        arith::pure::<A>() ==> final(output)@ == conv_of::<A>(
            rows::unstack(input@, frames as int, input_channels as int),
            input_channels as int,
            weight@,
            kernels::opt_view(bias),
            output_channels as int,
            kernel as int,
            dilation as int,
        ).flatten(),
{
    let x = split_rows(input, frames, input_channels);
    let y = conv_rows::<A>(
        &x,
        input_channels,
        weight,
        bias,
        output_channels,
        kernel,
        dilation,
    );
    let flat = join_rows(&y);
    proof {
        rows::lemma_flatten_len(rows::deep(y@), output_channels as int);
        assert(rows::deep(x@).len() == frames);
    }
    store(output, flat.as_slice());
}

/// A place in a `[p, q, r]` buffer lies inside it.
proof fn lemma_flat3(a: int, p: int, b: int, q: int, c: int, r: int)
    requires
        0 <= a < p,
        0 <= b < q,
        0 <= c < r,
    ensures
        0 <= a * q + b < p * q,
        0 <= a * q,
        0 <= (a * q + b) * r,
        (a * q + b) * r + c < p * q * r,
{
    assert(0 <= a * q && a * q + q <= p * q) by (nonlinear_arith)
        requires
            0 <= a < p,
            0 <= q,
    ;
    let m = a * q + b;
    assert(0 <= m * r && m * r + r <= p * q * r) by (nonlinear_arith)
        requires
            0 <= m < p * q,
            0 <= r,
    ;
}

/// The reordered weights of a transposed convolution, by output channel and tap.
fn transposed_table<T: Copy>(
    weight: &[T],
    input_channels: usize,
    output_channels: usize,
    kernel: usize,
) -> (table: Vec<Vec<Vec<T>>>)
    requires
        weight@.len() == input_channels * output_channels * kernel,
    ensures
        table@.len() == output_channels,
        forall|o: int| 0 <= o < output_channels ==> (#[trigger] table@[o])@.len() == kernel,
        forall|o: int, tap: int|
            0 <= o < output_channels && 0 <= tap < kernel ==> #[trigger] table@[o]@[tap]@
                == transposed_weights(
                weight@,
                input_channels as int,
                output_channels as int,
                kernel as int,
                o,
                tap,
            ),
{
    let mut table: Vec<Vec<Vec<T>>> = Vec::new();
    for o in 0..output_channels
        invariant
            weight@.len() == input_channels * output_channels * kernel,
            table@.len() == o,
            forall|j: int| 0 <= j < o ==> (#[trigger] table@[j])@.len() == kernel,
            forall|j: int, tap: int|
                0 <= j < o && 0 <= tap < kernel ==> #[trigger] table@[j]@[tap]@
                    == transposed_weights(
                    weight@,
                    input_channels as int,
                    output_channels as int,
                    kernel as int,
                    j,
                    tap,
                ),
    {
        let mut taps: Vec<Vec<T>> = Vec::new();
        for tap in 0..kernel
            invariant
                o < output_channels,
                weight@.len() == input_channels * output_channels * kernel,
                taps@.len() == tap,
                forall|j: int|
                    0 <= j < tap ==> (#[trigger] taps@[j])@ == transposed_weights(
                        weight@,
                        input_channels as int,
                        output_channels as int,
                        kernel as int,
                        o as int,
                        j,
                    ),
        {
            let mut values: Vec<T> = Vec::new();
            for c in 0..input_channels
                invariant
                    o < output_channels,
                    tap < kernel,
                    weight@.len() == input_channels * output_channels * kernel,
                    values@.len() == c,
                    forall|j: int|
                        0 <= j < c ==> #[trigger] values@[j] == weight@[(j * output_channels + o)
                            * kernel + tap],
            {
                proof {
                    lemma_flat3(
                        c as int,
                        input_channels as int,
                        o as int,
                        output_channels as int,
                        tap as int,
                        kernel as int,
                    );
                    assert(weight.len() == weight@.len());
                    assert(c * output_channels + o <= (c * output_channels + o) * kernel)
                        by (nonlinear_arith)
                        requires
                            0 <= c * output_channels + o,
                            1 <= kernel,
                    ;
                }
                values.push(weight[(c * output_channels + o) * kernel + tap]);
            }
            proof {
                assert(values@ =~= transposed_weights(
                    weight@,
                    input_channels as int,
                    output_channels as int,
                    kernel as int,
                    o as int,
                    tap as int,
                ));
            }
            taps.push(values);
        }
        table.push(taps);
    }
    table
}

/// A causal transposed convolution over rows.
pub fn transposed_rows<A: Arithmetic>(
    x: &Vec<Vec<A::Scalar>>,
    input_channels: usize,
    weight: &[A::Scalar],
    bias: Option<&[A::Scalar]>,
    output_channels: usize,
    kernel: usize,
    stride: usize,
) -> (out: Vec<Vec<A::Scalar>>)
    requires
        rows::uniform(rows::deep(x@), input_channels as int),
        weight@.len() == input_channels * output_channels * kernel,
        bias matches Some(b) ==> b@.len() == output_channels,
        stride > 0,
        x@.len() * stride <= usize::MAX,
    ensures
        out@.len() == x@.len() * stride,
        rows::uniform(rows::deep(out@), output_channels as int),
        arith::pure::<A>() ==> rows::deep(out@) == transposed_of::<A>(
            rows::deep(x@),
            input_channels as int,
            weight@,
            kernels::opt_view(bias),
            output_channels as int,
            kernel as int,
            stride as int,
        ),
{
    let table = transposed_table(weight, input_channels, output_channels, kernel);
    let kept: usize = x.len() * stride;
    let ghost frames = rows::deep(x@);
    let mut out: Vec<Vec<A::Scalar>> = Vec::new();
    for t in 0..kept
        invariant
            frames == rows::deep(x@),
            rows::uniform(frames, input_channels as int),
            bias matches Some(b) ==> b@.len() == output_channels,
            stride > 0,
            table@.len() == output_channels,
            forall|o: int| 0 <= o < output_channels ==> (#[trigger] table@[o])@.len() == kernel,
            forall|o: int, tap: int|
                0 <= o < output_channels && 0 <= tap < kernel ==> #[trigger] table@[o]@[tap]@
                    == transposed_weights(
                    weight@,
                    input_channels as int,
                    output_channels as int,
                    kernel as int,
                    o,
                    tap,
                ),
            out@.len() == t,
            forall|j: int| 0 <= j < t ==> (#[trigger] out@[j])@.len() == output_channels,
            arith::pure::<A>() ==> forall|j: int, o: int|
                0 <= j < t && 0 <= o < output_channels ==> #[trigger] out@[j]@[o]
                    == transposed_sample::<A>(
                    frames,
                    weight@,
                    kernels::opt_view(bias),
                    input_channels as int,
                    output_channels as int,
                    kernel as int,
                    stride as int,
                    j,
                    o,
                ),
    {
        let mut values: Vec<A::Scalar> = Vec::new();
        for o in 0..output_channels
            invariant
                frames == rows::deep(x@),
                rows::uniform(frames, input_channels as int),
                bias matches Some(b) ==> b@.len() == output_channels,
                stride > 0,
                table@.len() == output_channels,
                forall|q: int|
                    0 <= q < output_channels ==> (#[trigger] table@[q])@.len() == kernel,
                forall|q: int, tap: int|
                    0 <= q < output_channels && 0 <= tap < kernel ==> #[trigger] table@[q]@[tap]@
                        == transposed_weights(
                        weight@,
                        input_channels as int,
                        output_channels as int,
                        kernel as int,
                        q,
                        tap,
                    ),
                values@.len() == o,
                arith::pure::<A>() ==> forall|q: int|
                    0 <= q < o ==> #[trigger] values@[q] == transposed_sample::<A>(
                        frames,
                        weight@,
                        kernels::opt_view(bias),
                        input_channels as int,
                        output_channels as int,
                        kernel as int,
                        stride as int,
                        t as int,
                        q,
                    ),
        {
            let mut sum = constant::<A>(Constant::Zero);
            for tap in 0..kernel
                invariant
                    frames == rows::deep(x@),
                    rows::uniform(frames, input_channels as int),
                    stride > 0,
                    o < output_channels,
                    table@.len() == output_channels,
                    forall|q: int|
                        0 <= q < output_channels ==> (#[trigger] table@[q])@.len() == kernel,
                    forall|q: int, p: int|
                        0 <= q < output_channels && 0 <= p < kernel ==> #[trigger] table@[q]@[p]@
                            == transposed_weights(
                            weight@,
                            input_channels as int,
                            output_channels as int,
                            kernel as int,
                            q,
                            p,
                        ),
                    arith::pure::<A>() ==> sum == transposed_sum::<A>(
                        frames,
                        weight@,
                        input_channels as int,
                        output_channels as int,
                        kernel as int,
                        stride as int,
                        t as int,
                        o as int,
                        tap as int,
                    ),
            {
                if tap <= t {
                    let shifted: usize = t - tap;
                    if shifted % stride == 0 {
                        let frame: usize = shifted / stride;
                        if frame < x.len() {
                            proof {
                                assert(landing_frame(
                                    t as int,
                                    tap as int,
                                    stride as int,
                                    frames.len() as int,
                                ) == Some(frame as int));
                                assert(frames[frame as int].len() == input_channels);
                                assert(frames[frame as int] == x@[frame as int]@);
                                assert(table@[o as int]@[tap as int]@.len() == input_channels);
                            }
                            let part = reduce::<A>(
                                Reduction::Convolution,
                                x[frame].as_slice(),
                                table[o][tap].as_slice(),
                                None,
                            );
                            sum = binary::<A>(Binary::Add, sum, part);
                        }
                    }
                }
            }
            let value = match bias {
                Some(values) => binary::<A>(Binary::Add, sum, values[o]),
                None => sum,
            };
            values.push(value);
        }
        out.push(values);
    }
    proof {
        if arith::pure::<A>() {
            let want = transposed_of::<A>(
                frames,
                input_channels as int,
                weight@,
                kernels::opt_view(bias),
                output_channels as int,
                kernel as int,
                stride as int,
            );
            assert forall|j: int| 0 <= j < kept implies rows::deep(out@)[j] == want[j] by {
                assert(out@[j]@.len() == output_channels);
                assert forall|o: int| 0 <= o < output_channels implies out@[j]@[o]
                    == want[j][o] by {}
                assert(rows::deep(out@)[j] =~= want[j]);
            }
            assert(rows::deep(out@) =~= want);
        }
    }
    out
}

/// Causal transposed convolution of time-major data, trimmed on the right to
/// `frames * stride` samples. Weights are laid out `[input_channel, output_channel, kernel]`.
pub fn causal_transpose_conv1d<A: Arithmetic>(
    input: &[A::Scalar],
    frames: usize,
    input_channels: usize,
    weight: &[A::Scalar],
    bias: Option<&[A::Scalar]>,
    output_channels: usize,
    kernel: usize,
    stride: usize,
    output: &mut [A::Scalar],
)
    requires
        input@.len() == frames * input_channels,
        weight@.len() == input_channels * output_channels * kernel,
        old(output)@.len() == frames * stride * output_channels,
        frames * stride <= usize::MAX,
        kernel >= stride,
        stride > 0,
        bias matches Some(b) ==> b@.len() == output_channels,
    ensures
        final(output)@.len() == old(output)@.len(),
        arith::pure::<A>() ==> final(output)@ == transposed_of::<A>(
            rows::unstack(input@, frames as int, input_channels as int),
            input_channels as int,
            weight@,
            kernels::opt_view(bias),
            output_channels as int,
            kernel as int,
            stride as int,
        ).flatten(),
{
    let x = split_rows(input, frames, input_channels);
    proof {
        assert(rows::deep(x@).len() == frames);
    }
    let y = transposed_rows::<A>(
        &x,
        input_channels,
        weight,
        bias,
        output_channels,
        kernel,
        stride,
    );
    let flat = join_rows(&y);
    proof {
        rows::lemma_flatten_len(rows::deep(y@), output_channels as int);
    }
    store(output, flat.as_slice());
}

/// A causal depthwise convolution over rows.
pub fn depthwise_rows<A: Arithmetic>(
    x: &Vec<Vec<A::Scalar>>,
    channels: usize,
    weight: &[A::Scalar],
    bias: &[A::Scalar],
    kernel: usize,
) -> (out: Vec<Vec<A::Scalar>>)
    requires
        rows::uniform(rows::deep(x@), channels as int),
        weight@.len() == channels * kernel,
        bias@.len() == channels,
    ensures
        out@.len() == x@.len(),
        rows::uniform(rows::deep(out@), channels as int),
        arith::pure::<A>() ==> rows::deep(out@) == depthwise_of::<A>(
            rows::deep(x@),
            channels as int,
            weight@,
            bias@,
            kernel as int,
        ),
{
    let ghost frames = rows::deep(x@);
    let mut out: Vec<Vec<A::Scalar>> = Vec::new();
    for t in 0..x.len()
        invariant
            frames == rows::deep(x@),
            rows::uniform(frames, channels as int),
            weight@.len() == channels * kernel,
            bias@.len() == channels,
            out@.len() == t,
            forall|j: int| 0 <= j < t ==> (#[trigger] out@[j])@.len() == channels,
            arith::pure::<A>() ==> forall|j: int, c: int|
                0 <= j < t && 0 <= c < channels ==> #[trigger] out@[j]@[c] == depthwise_sum::<A>(
                    frames,
                    weight@,
                    bias@,
                    kernel as int,
                    j,
                    c,
                    kernel as int,
                ),
    {
        let mut values: Vec<A::Scalar> = Vec::new();
        for c in 0..channels
            invariant
                t < x@.len(),
                frames == rows::deep(x@),
                rows::uniform(frames, channels as int),
                weight@.len() == channels * kernel,
                bias@.len() == channels,
                values@.len() == c,
                arith::pure::<A>() ==> forall|j: int|
                    0 <= j < c ==> #[trigger] values@[j] == depthwise_sum::<A>(
                        frames,
                        weight@,
                        bias@,
                        kernel as int,
                        t as int,
                        j,
                        kernel as int,
                    ),
        {
            let mut sum = bias[c];
            for tap in 0..kernel
                invariant
                    t < x@.len(),
                    c < channels,
                    frames == rows::deep(x@),
                    rows::uniform(frames, channels as int),
                    weight@.len() == channels * kernel,
                    arith::pure::<A>() ==> sum == depthwise_sum::<A>(
                        frames,
                        weight@,
                        bias@,
                        kernel as int,
                        t as int,
                        c as int,
                        tap as int,
                    ),
            {
                let past: usize = kernel - 1 - tap;
                if past <= t {
                    proof {
                        assert(frames[t - past].len() == channels);
                        assert(frames[t - past] == x@[t - past]@);
                        rows::lemma_row_bounds(c as int, channels as int, kernel as int);
                        assert(weight.len() == weight@.len());
                    }
                    let part = binary::<A>(Binary::Mul, x[t - past][c], weight[c * kernel + tap]);
                    sum = binary::<A>(Binary::Add, sum, part);
                }
            }
            values.push(sum);
        }
        out.push(values);
    }
    proof {
        if arith::pure::<A>() {
            let want = depthwise_of::<A>(
                frames,
                channels as int,
                weight@,
                bias@,
                kernel as int,
            );
            assert forall|j: int| 0 <= j < frames.len() implies rows::deep(out@)[j] == want[j] by {
                assert(out@[j]@.len() == channels);
                assert forall|c: int| 0 <= c < channels implies out@[j]@[c] == want[j][c] by {}
                assert(rows::deep(out@)[j] =~= want[j]);
            }
            assert(rows::deep(out@) =~= want);
        }
    }
    out
}

} // verus!
