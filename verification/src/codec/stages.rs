//! The upsampling stages between the pre-transformer and the waveform.
//!
//! Every stage comes in two forms: over a whole sequence, and as a stream that keeps the causal
//! context of its convolutions. A stream's step is written out over its retained context, so it
//! is exact for whatever weights a caller hands in; that a stream given one set of weights cannot
//! be told from the whole form is a law.
use vstd::prelude::*;
use crate::arith;
use crate::arith::{binary, constant, unary, Arithmetic, Binary, Constant, Reduction, Unary};
use crate::codec::conv;
use crate::codec::conv::{conv_rows, depthwise_rows, transposed_rows};
use crate::codec::streams::{
    CausalConvStream, CausalDepthwiseConvStream, CausalTransposeConvStream,
};
use crate::kernels;
use crate::kernels::{gelu_each, layer_norm, linear, scaled_residual, zip_with};
use crate::rows;
use crate::rows::{join_rows, split_rows, store};

verus! {

/// One SnakeBeta value: `x + sin(x e^alpha)^2 / (e^beta + epsilon)`.
pub open spec fn snake_value<A: Arithmetic>(
    x: A::Scalar,
    alpha_log: A::Scalar,
    beta_log: A::Scalar,
) -> A::Scalar {
    let sine = arith::un::<A>(
        Unary::Sin,
        arith::bin::<A>(Binary::Mul, x, arith::un::<A>(Unary::Exp, alpha_log)),
    );
    let scale = arith::un::<A>(
        Unary::Recip,
        arith::bin::<A>(
            Binary::Add,
            arith::un::<A>(Unary::Exp, beta_log),
            arith::cst::<A>(Constant::SnakeEpsilon),
        ),
    );
    arith::bin::<A>(
        Binary::Add,
        x,
        arith::bin::<A>(Binary::Mul, scale, arith::bin::<A>(Binary::Mul, sine, sine)),
    )
}

/// SnakeBeta over one frame, with its parameters stored as logarithms.
pub open spec fn snake_row<A: Arithmetic>(
    x: Seq<A::Scalar>,
    alpha_log: Seq<A::Scalar>,
    beta_log: Seq<A::Scalar>,
) -> Seq<A::Scalar> {
    Seq::new(x.len(), |c: int| snake_value::<A>(x[c], alpha_log[c], beta_log[c]))
}

/// SnakeBeta over frames.
pub open spec fn snake_of<A: Arithmetic>(
    x: Seq<Seq<A::Scalar>>,
    alpha_log: Seq<A::Scalar>,
    beta_log: Seq<A::Scalar>,
) -> Seq<Seq<A::Scalar>> {
    Seq::new(x.len(), |t: int| snake_row::<A>(x[t], alpha_log, beta_log))
}

/// Frames added place by place.
pub open spec fn sum_rows_of<A: Arithmetic>(
    x: Seq<Seq<A::Scalar>>,
    y: Seq<Seq<A::Scalar>>,
) -> Seq<Seq<A::Scalar>> {
    Seq::new(x.len(), |t: int| kernels::zip::<A>(Binary::Add, x[t], y[t]))
}

/// SnakeBeta over frames.
pub fn snake_rows<A: Arithmetic>(
    x: &Vec<Vec<A::Scalar>>,
    alpha_log: &[A::Scalar],
    beta_log: &[A::Scalar],
) -> (out: Vec<Vec<A::Scalar>>)
    requires
        rows::uniform(rows::deep(x@), alpha_log@.len() as int),
        beta_log@.len() == alpha_log@.len(),
    ensures
        out@.len() == x@.len(),
        rows::uniform(rows::deep(out@), alpha_log@.len() as int),
        arith::pure::<A>() ==> rows::deep(out@) == snake_of::<A>(
            rows::deep(x@),
            alpha_log@,
            beta_log@,
        ),
{
    let epsilon = constant::<A>(Constant::SnakeEpsilon);
    let ghost frames = rows::deep(x@);
    let mut out: Vec<Vec<A::Scalar>> = Vec::new();
    for t in 0..x.len()
        invariant
            arith::pure::<A>() ==> epsilon == arith::cst::<A>(Constant::SnakeEpsilon),
            frames == rows::deep(x@),
            rows::uniform(frames, alpha_log@.len() as int),
            beta_log@.len() == alpha_log@.len(),
            out@.len() == t,
            forall|j: int| 0 <= j < t ==> (#[trigger] out@[j])@.len() == alpha_log@.len(),
            arith::pure::<A>() ==> forall|j: int|
                0 <= j < t ==> (#[trigger] out@[j])@ == snake_row::<A>(
                    frames[j],
                    alpha_log@,
                    beta_log@,
                ),
    {
        proof {
            assert(frames[t as int].len() == alpha_log@.len());
            assert(frames[t as int] == x@[t as int]@);
        }
        let mut values: Vec<A::Scalar> = Vec::new();
        for c in 0..alpha_log.len()
            invariant
                arith::pure::<A>() ==> epsilon == arith::cst::<A>(Constant::SnakeEpsilon),
                t < x@.len(),
                x@[t as int]@.len() == alpha_log@.len(),
                beta_log@.len() == alpha_log@.len(),
                values@.len() == c,
                arith::pure::<A>() ==> forall|j: int|
                    0 <= j < c ==> #[trigger] values@[j] == snake_value::<A>(
                        x@[t as int]@[j],
                        alpha_log@[j],
                        beta_log@[j],
                    ),
        {
            let value = x[t][c];
            let alpha = unary::<A>(Unary::Exp, alpha_log[c]);
            let beta = unary::<A>(Unary::Exp, beta_log[c]);
            let scale = unary::<A>(Unary::Recip, binary::<A>(Binary::Add, beta, epsilon));
            let sine = unary::<A>(Unary::Sin, binary::<A>(Binary::Mul, value, alpha));
            let squared = binary::<A>(Binary::Mul, sine, sine);
            let lift = binary::<A>(Binary::Mul, scale, squared);
            values.push(binary::<A>(Binary::Add, value, lift));
        }
        proof {
            if arith::pure::<A>() {
                assert(values@ =~= snake_row::<A>(frames[t as int], alpha_log@, beta_log@));
            }
        }
        out.push(values);
    }
    proof {
        if arith::pure::<A>() {
            assert(rows::deep(out@) =~= snake_of::<A>(frames, alpha_log@, beta_log@));
        }
    }
    out
}

/// Applies SnakeBeta to time-major `[frames, channels]` values in place.
pub fn snake_beta_in_place<A: Arithmetic>(
    values: &mut [A::Scalar],
    frames: usize,
    alpha_log: &[A::Scalar],
    beta_log: &[A::Scalar],
)
    requires
        beta_log@.len() == alpha_log@.len(),
        old(values)@.len() == frames * alpha_log@.len(),
    ensures
        final(values)@.len() == old(values)@.len(),
        arith::pure::<A>() ==> final(values)@ == snake_of::<A>(
            rows::unstack(old(values)@, frames as int, alpha_log@.len() as int),
            alpha_log@,
            beta_log@,
        ).flatten(),
{
    let x = split_rows(values, frames, alpha_log.len());
    let y = snake_rows::<A>(&x, alpha_log, beta_log);
    let flat = join_rows(&y);
    proof {
        rows::lemma_flatten_len(rows::deep(y@), alpha_log@.len() as int);
        assert(rows::deep(x@).len() == frames);
    }
    store(values, flat.as_slice());
}

/// Frames added place by place.
fn sum_rows<A: Arithmetic>(
    x: &Vec<Vec<A::Scalar>>,
    y: &Vec<Vec<A::Scalar>>,
    Ghost(width): Ghost<int>,
) -> (out: Vec<Vec<A::Scalar>>)
    requires
        x@.len() == y@.len(),
        rows::uniform(rows::deep(x@), width),
        rows::uniform(rows::deep(y@), width),
    ensures
        out@.len() == x@.len(),
        rows::uniform(rows::deep(out@), width),
        arith::pure::<A>() ==> rows::deep(out@) == sum_rows_of::<A>(
            rows::deep(x@),
            rows::deep(y@),
        ),
{
    let mut out: Vec<Vec<A::Scalar>> = Vec::new();
    for t in 0..x.len()
        invariant
            x@.len() == y@.len(),
            rows::uniform(rows::deep(x@), width),
            rows::uniform(rows::deep(y@), width),
            out@.len() == t,
            forall|j: int| 0 <= j < t ==> (#[trigger] out@[j])@.len() == width,
            arith::pure::<A>() ==> forall|j: int|
                0 <= j < t ==> (#[trigger] out@[j])@ == kernels::zip::<A>(
                    Binary::Add,
                    x@[j]@,
                    y@[j]@,
                ),
    {
        proof {
            assert(rows::deep(x@)[t as int].len() == width);
            assert(rows::deep(y@)[t as int].len() == width);
        }
        out.push(zip_with::<A>(Binary::Add, x[t].as_slice(), y[t].as_slice()));
    }
    proof {
        if arith::pure::<A>() {
            assert(rows::deep(out@) =~= sum_rows_of::<A>(rows::deep(x@), rows::deep(y@)));
        }
    }
    out
}

/// Borrowed causal convolution weights.
#[derive(Clone, Copy, Debug)]
pub struct CausalConvWeights<'a, S> {
    /// `[output_channel, input_channel, kernel]`.
    pub weight: &'a [S],
    /// `[output_channel]`.
    pub bias: &'a [S],
    /// Channels of one input frame.
    pub input_channels: usize,
    /// Channels of one output frame.
    pub output_channels: usize,
    /// Taps.
    pub kernel: usize,
    /// Frames between two taps.
    pub dilation: usize,
}

impl<'a, S: Copy> CausalConvWeights<'a, S> {
    /// That the buffers have the shape the geometry gives them.
    pub open spec fn fits(&self) -> bool {
        &&& self.weight@.len() == self.output_channels * self.input_channels * self.kernel
        &&& self.bias@.len() == self.output_channels
        &&& self.kernel > 0
        &&& self.dilation > 0
        &&& (self.kernel - 1) * self.dilation <= usize::MAX
    }

    /// Input frames that can still reach a future output frame.
    pub open spec fn keep(&self) -> int {
        (self.kernel - 1) * self.dilation
    }

    /// The whole-sequence convolution.
    pub open spec fn whole<A: Arithmetic<Scalar = S>>(&self, x: Seq<Seq<S>>) -> Seq<Seq<S>> {
        conv::conv_of::<A>(
            x,
            self.input_channels as int,
            self.weight@,
            Some(self.bias@),
            self.output_channels as int,
            self.kernel as int,
            self.dilation as int,
        )
    }
}

impl<'a, S: Copy> CausalConvWeights<'a, S> {
    /// What a stream that retains `history` emits for a packet.
    pub open spec fn emitted<A: Arithmetic<Scalar = S>>(
        &self,
        history: Seq<Seq<S>>,
        packet: Seq<Seq<S>>,
    ) -> Seq<Seq<S>> {
        self.whole::<A>(history + packet).skip(history.len() as int)
    }

    /// What a stream that retains `history` retains after a packet.
    pub open spec fn retained(&self, history: Seq<Seq<S>>, packet: Seq<Seq<S>>) -> Seq<Seq<S>> {
        conv::latest(history + packet, self.keep())
    }

    /// That a stream was made for these weights.
    pub open spec fn drives<A: Arithmetic<Scalar = S>>(&self, stream: CausalConvStream<A>) -> bool {
        &&& stream.wf()
        &&& stream.channels() == self.input_channels
        &&& stream.taps() == self.kernel
        &&& stream.spacing() == self.dilation
    }

    /// The whole-sequence convolution over rows.
    pub fn forward<A: Arithmetic<Scalar = S>>(&self, x: &Vec<Vec<S>>) -> (out: Vec<Vec<S>>)
        requires
            self.fits(),
            rows::uniform(rows::deep(x@), self.input_channels as int),
        ensures
            out@.len() == x@.len(),
            rows::uniform(rows::deep(out@), self.output_channels as int),
            arith::pure::<A>() ==> rows::deep(out@) == self.whole::<A>(rows::deep(x@)),
    {
        conv_rows::<A>(
            x,
            self.input_channels,
            self.weight,
            Some(self.bias),
            self.output_channels,
            self.kernel,
            self.dilation,
        )
    }

    /// An empty stream for these weights.
    pub fn stream<A: Arithmetic<Scalar = S>>(&self) -> (stream: CausalConvStream<A>)
        requires
            self.fits(),
            self.input_channels > 0,
        ensures
            self.drives(stream),
            stream.history() == Seq::<Seq<S>>::empty(),
    {
        CausalConvStream::<A>::new(self.input_channels, self.kernel, self.dilation)
    }

    /// One packet through a stream.
    pub fn push<A: Arithmetic<Scalar = S>>(
        &self,
        stream: &mut CausalConvStream<A>,
        packet: &Vec<Vec<S>>,
    ) -> (out: Vec<Vec<S>>)
        requires
            self.fits(),
            self.drives(*old(stream)),
            rows::uniform(rows::deep(packet@), self.input_channels as int),
        ensures
            self.drives(*final(stream)),
            final(stream).history() == self.retained(old(stream).history(), rows::deep(packet@)),
            out@.len() == packet@.len(),
            rows::uniform(rows::deep(out@), self.output_channels as int),
            arith::pure::<A>() ==> rows::deep(out@) == self.emitted::<A>(
                old(stream).history(),
                rows::deep(packet@),
            ),
    {
        stream.push_rows(packet, self.weight, Some(self.bias), self.output_channels)
    }
}

/// Borrowed causal transposed convolution weights.
#[derive(Clone, Copy, Debug)]
pub struct CausalTransposeConvWeights<'a, S> {
    /// `[input_channel, output_channel, kernel]`.
    pub weight: &'a [S],
    /// `[output_channel]`.
    pub bias: &'a [S],
    /// Channels of one input frame.
    pub input_channels: usize,
    /// Channels of one output frame.
    pub output_channels: usize,
    /// Taps.
    pub kernel: usize,
    /// Output frames per input frame.
    pub stride: usize,
}

impl<'a, S: Copy> CausalTransposeConvWeights<'a, S> {
    /// That the buffers have the shape the geometry gives them.
    pub open spec fn fits(&self) -> bool {
        &&& self.weight@.len() == self.input_channels * self.output_channels * self.kernel
        &&& self.bias@.len() == self.output_channels
        &&& self.kernel >= self.stride
        &&& self.stride > 0
    }

    /// Input frames that can still reach a future output frame.
    pub open spec fn keep(&self) -> int {
        (self.kernel - 1) / (self.stride as int)
    }

    /// The whole-sequence convolution.
    pub open spec fn whole<A: Arithmetic<Scalar = S>>(&self, x: Seq<Seq<S>>) -> Seq<Seq<S>> {
        conv::transposed_of::<A>(
            x,
            self.input_channels as int,
            self.weight@,
            Some(self.bias@),
            self.output_channels as int,
            self.kernel as int,
            self.stride as int,
        )
    }

    /// What a stream that retains `history` emits for a packet.
    pub open spec fn emitted<A: Arithmetic<Scalar = S>>(
        &self,
        history: Seq<Seq<S>>,
        packet: Seq<Seq<S>>,
    ) -> Seq<Seq<S>> {
        self.whole::<A>(history + packet).skip((history.len() * self.stride) as int)
    }

    /// What a stream that retains `history` retains after a packet.
    pub open spec fn retained(&self, history: Seq<Seq<S>>, packet: Seq<Seq<S>>) -> Seq<Seq<S>> {
        conv::latest(history + packet, self.keep())
    }

    /// That a stream was made for these weights.
    pub open spec fn drives<A: Arithmetic<Scalar = S>>(
        &self,
        stream: CausalTransposeConvStream<A>,
    ) -> bool {
        &&& stream.wf()
        &&& stream.channels() == self.input_channels
        &&& stream.outputs() == self.output_channels
        &&& stream.taps() == self.kernel
        &&& stream.step() == self.stride
    }

    /// That the output frames of a packet can be counted, whatever context the stream retains.
    pub open spec fn countable(&self, frames: int) -> bool {
        (self.keep() + frames) * self.stride <= usize::MAX
    }

    /// The whole-sequence convolution over rows.
    fn forward<A: Arithmetic<Scalar = S>>(&self, x: &Vec<Vec<S>>) -> (out: Vec<Vec<S>>)
        requires
            self.fits(),
            rows::uniform(rows::deep(x@), self.input_channels as int),
            x@.len() * self.stride <= usize::MAX,
        ensures
            out@.len() == x@.len() * self.stride,
            rows::uniform(rows::deep(out@), self.output_channels as int),
            arith::pure::<A>() ==> rows::deep(out@) == self.whole::<A>(rows::deep(x@)),
    {
        transposed_rows::<A>(
            x,
            self.input_channels,
            self.weight,
            Some(self.bias),
            self.output_channels,
            self.kernel,
            self.stride,
        )
    }

    /// An empty stream for these weights.
    fn stream<A: Arithmetic<Scalar = S>>(&self) -> (stream: CausalTransposeConvStream<A>)
        requires
            self.fits(),
            self.input_channels > 0,
            self.output_channels > 0,
        ensures
            self.drives(stream),
            stream.history() == Seq::<Seq<S>>::empty(),
    {
        CausalTransposeConvStream::<A>::new(
            self.input_channels,
            self.output_channels,
            self.kernel,
            self.stride,
        )
    }

    /// One packet through a stream.
    fn push<A: Arithmetic<Scalar = S>>(
        &self,
        stream: &mut CausalTransposeConvStream<A>,
        packet: &Vec<Vec<S>>,
    ) -> (out: Vec<Vec<S>>)
        requires
            self.fits(),
            self.drives(*old(stream)),
            rows::uniform(rows::deep(packet@), self.input_channels as int),
            self.countable(packet@.len() as int),
        ensures
            self.drives(*final(stream)),
            final(stream).history() == self.retained(old(stream).history(), rows::deep(packet@)),
            out@.len() == packet@.len() * self.stride,
            rows::uniform(rows::deep(out@), self.output_channels as int),
            arith::pure::<A>() ==> rows::deep(out@) == self.emitted::<A>(
                old(stream).history(),
                rows::deep(packet@),
            ),
    {
        proof {
            let kept = stream.history().len() as int;
            assert((kept + packet@.len()) * self.stride <= (self.keep() + packet@.len())
                * self.stride) by (nonlinear_arith)
                requires
                    0 <= kept <= self.keep(),
                    0 <= packet@.len(),
                    0 <= self.stride,
            ;
        }
        stream.push_rows(packet, self.weight, Some(self.bias))
    }
}

/// One causal ConvNeXt block.
#[derive(Clone, Copy, Debug)]
pub struct CodecConvNextWeights<'a, S> {
    /// Depthwise convolution, `[channels, 1, 7]`.
    pub depthwise_weight: &'a [S],
    /// Depthwise bias, `[channels]`.
    pub depthwise_bias: &'a [S],
    /// LayerNorm weight, `[channels]`.
    pub norm_weight: &'a [S],
    /// LayerNorm bias, `[channels]`.
    pub norm_bias: &'a [S],
    /// Pointwise expansion, `[4 * channels, channels]`.
    pub pwconv1: &'a [S],
    /// Pointwise expansion bias, `[4 * channels]`.
    pub pwconv1_bias: &'a [S],
    /// Pointwise contraction, `[channels, 4 * channels]`.
    pub pwconv2: &'a [S],
    /// Pointwise contraction bias, `[channels]`.
    pub pwconv2_bias: &'a [S],
    /// Learned residual scale, `[channels]`.
    pub gamma: &'a [S],
}

/// Taps of a ConvNeXt block's depthwise convolution.
pub const CONVNEXT_KERNEL: usize = 7;

impl<'a, S: Copy> CodecConvNextWeights<'a, S> {
    /// That the buffers have the shape `channels` gives them.
    pub open spec fn fits(&self, channels: int) -> bool {
        &&& 4 * channels <= usize::MAX
        &&& self.depthwise_weight@.len() == channels * CONVNEXT_KERNEL
        &&& self.depthwise_bias@.len() == channels
        &&& self.norm_weight@.len() == channels
        &&& self.norm_bias@.len() == channels
        &&& self.pwconv1@.len() == 4 * channels * channels
        &&& self.pwconv1_bias@.len() == 4 * channels
        &&& self.pwconv2@.len() == channels * (4 * channels)
        &&& self.pwconv2_bias@.len() == channels
        &&& self.gamma@.len() == channels
    }

    /// One output frame from its input frame and its depthwise frame.
    pub open spec fn finished<A: Arithmetic<Scalar = S>>(
        &self,
        input: Seq<S>,
        mixed: Seq<S>,
    ) -> Seq<S> {
        let channels = input.len() as int;
        let normed = kernels::layer_norm_of::<A>(
            mixed,
            self.norm_weight@,
            self.norm_bias@,
            arith::cst::<A>(Constant::ConvNextEpsilon),
        );
        let expanded = kernels::linear_of::<A>(
            Reduction::Dense,
            normed,
            self.pwconv1@,
            Some(self.pwconv1_bias@),
            4 * channels,
        );
        kernels::scaled_residual_of::<A>(
            input,
            self.gamma@,
            kernels::linear_of::<A>(
                Reduction::Dense,
                kernels::gelu_row::<A>(expanded),
                self.pwconv2@,
                Some(self.pwconv2_bias@),
                channels,
            ),
        )
    }

    /// The output frames from the input frames and their depthwise frames.
    pub open spec fn finished_rows<A: Arithmetic<Scalar = S>>(
        &self,
        input: Seq<Seq<S>>,
        mixed: Seq<Seq<S>>,
    ) -> Seq<Seq<S>> {
        Seq::new(input.len(), |t: int| self.finished::<A>(input[t], mixed[t]))
    }

    /// The depthwise convolution over a whole sequence.
    pub open spec fn mixed<A: Arithmetic<Scalar = S>>(
        &self,
        x: Seq<Seq<S>>,
        channels: int,
    ) -> Seq<Seq<S>> {
        conv::depthwise_of::<A>(
            x,
            channels,
            self.depthwise_weight@,
            self.depthwise_bias@,
            CONVNEXT_KERNEL as int,
        )
    }

    /// The whole-sequence block.
    pub open spec fn whole<A: Arithmetic<Scalar = S>>(
        &self,
        x: Seq<Seq<S>>,
        channels: int,
    ) -> Seq<Seq<S>> {
        self.finished_rows::<A>(x, self.mixed::<A>(x, channels))
    }

    /// What a stream that retains `history` emits for a packet.
    pub open spec fn emitted<A: Arithmetic<Scalar = S>>(
        &self,
        history: Seq<Seq<S>>,
        packet: Seq<Seq<S>>,
        channels: int,
    ) -> Seq<Seq<S>> {
        self.finished_rows::<A>(
            packet,
            self.mixed::<A>(history + packet, channels).skip(history.len() as int),
        )
    }

    /// What a stream that retains `history` retains after a packet.
    pub open spec fn retained(&self, history: Seq<Seq<S>>, packet: Seq<Seq<S>>) -> Seq<Seq<S>> {
        conv::latest(history + packet, CONVNEXT_KERNEL - 1)
    }

    /// That a stream was made for a block of `channels`.
    pub open spec fn drives<A: Arithmetic<Scalar = S>>(
        &self,
        stream: CausalDepthwiseConvStream<A>,
        channels: int,
    ) -> bool {
        &&& stream.wf()
        &&& stream.width() == channels
        &&& stream.taps() == CONVNEXT_KERNEL
    }

    /// The output frames from the input frames and their depthwise frames.
    fn finish_rows<A: Arithmetic<Scalar = S>>(
        &self,
        input: &Vec<Vec<S>>,
        mixed: &Vec<Vec<S>>,
        channels: usize,
    ) -> (out: Vec<Vec<S>>)
        requires
            self.fits(channels as int),
            input@.len() == mixed@.len(),
            rows::uniform(rows::deep(input@), channels as int),
            rows::uniform(rows::deep(mixed@), channels as int),
        ensures
            out@.len() == input@.len(),
            rows::uniform(rows::deep(out@), channels as int),
            arith::pure::<A>() ==> rows::deep(out@) == self.finished_rows::<A>(
                rows::deep(input@),
                rows::deep(mixed@),
            ),
    {
        let epsilon = constant::<A>(Constant::ConvNextEpsilon);
        let mut out: Vec<Vec<S>> = Vec::new();
        for t in 0..input.len()
            invariant
                self.fits(channels as int),
                input@.len() == mixed@.len(),
                rows::uniform(rows::deep(input@), channels as int),
                rows::uniform(rows::deep(mixed@), channels as int),
                arith::pure::<A>() ==> epsilon == arith::cst::<A>(Constant::ConvNextEpsilon),
                out@.len() == t,
                forall|j: int| 0 <= j < t ==> (#[trigger] out@[j])@.len() == channels,
                arith::pure::<A>() ==> forall|j: int|
                    0 <= j < t ==> (#[trigger] out@[j])@ == self.finished::<A>(
                        input@[j]@,
                        mixed@[j]@,
                    ),
        {
            proof {
                assert(rows::deep(input@)[t as int].len() == channels);
                assert(rows::deep(mixed@)[t as int].len() == channels);
            }
            let normed = layer_norm::<A>(
                mixed[t].as_slice(),
                self.norm_weight,
                self.norm_bias,
                epsilon,
            );
            let expanded = linear::<A>(
                Reduction::Dense,
                normed.as_slice(),
                self.pwconv1,
                Some(self.pwconv1_bias),
                4 * channels,
            );
            let activated = gelu_each::<A>(expanded.as_slice());
            let branch = linear::<A>(
                Reduction::Dense,
                activated.as_slice(),
                self.pwconv2,
                Some(self.pwconv2_bias),
                channels,
            );
            out.push(
                scaled_residual::<A>(input[t].as_slice(), self.gamma, branch.as_slice()),
            );
        }
        proof {
            if arith::pure::<A>() {
                assert(rows::deep(out@) =~= self.finished_rows::<A>(
                    rows::deep(input@),
                    rows::deep(mixed@),
                ));
            }
        }
        out
    }

    /// The whole-sequence block over rows.
    fn forward<A: Arithmetic<Scalar = S>>(&self, x: &Vec<Vec<S>>, channels: usize) -> (out: Vec<
        Vec<S>,
    >)
        requires
            self.fits(channels as int),
            rows::uniform(rows::deep(x@), channels as int),
        ensures
            out@.len() == x@.len(),
            rows::uniform(rows::deep(out@), channels as int),
            arith::pure::<A>() ==> rows::deep(out@) == self.whole::<A>(
                rows::deep(x@),
                channels as int,
            ),
    {
        let mixed = depthwise_rows::<A>(
            x,
            channels,
            self.depthwise_weight,
            self.depthwise_bias,
            CONVNEXT_KERNEL,
        );
        self.finish_rows::<A>(x, &mixed, channels)
    }

    /// One packet through a stream.
    fn push<A: Arithmetic<Scalar = S>>(
        &self,
        stream: &mut CausalDepthwiseConvStream<A>,
        packet: &Vec<Vec<S>>,
        channels: usize,
    ) -> (out: Vec<Vec<S>>)
        requires
            self.fits(channels as int),
            self.drives(*old(stream), channels as int),
            rows::uniform(rows::deep(packet@), channels as int),
        ensures
            self.drives(*final(stream), channels as int),
            final(stream).history() == self.retained(old(stream).history(), rows::deep(packet@)),
            out@.len() == packet@.len(),
            rows::uniform(rows::deep(out@), channels as int),
            arith::pure::<A>() ==> rows::deep(out@) == self.emitted::<A>(
                old(stream).history(),
                rows::deep(packet@),
                channels as int,
            ),
    {
        let mixed = stream.push_rows(packet, self.depthwise_weight, self.depthwise_bias);
        self.finish_rows::<A>(packet, &mixed, channels)
    }
}

/// Runs one causal ConvNeXt block over a whole sequence.
pub fn forward_convnext<'a, A: Arithmetic>(
    input: &[A::Scalar],
    frames: usize,
    channels: usize,
    weights: CodecConvNextWeights<'a, A::Scalar>,
) -> (out: Vec<A::Scalar>)
    requires
        input@.len() == frames * channels,
        weights.fits(channels as int),
    ensures
        out@.len() == input@.len(),
        arith::pure::<A>() ==> out@ == weights.whole::<A>(
            rows::unstack(input@, frames as int, channels as int),
            channels as int,
        ).flatten(),
{
    let x = split_rows(input, frames, channels);
    let y = weights.forward::<A>(&x, channels);
    proof {
        rows::lemma_flatten_len(rows::deep(y@), channels as int);
        assert(rows::deep(x@).len() == frames);
    }
    join_rows(&y)
}

/// One latent upsampling stage: a transposed convolution, then a ConvNeXt block.
#[derive(Clone, Copy, Debug)]
pub struct CodecUpsampleStageWeights<'a, S> {
    /// The transposed convolution.
    pub transposed: CausalTransposeConvWeights<'a, S>,
    /// The ConvNeXt block over its output.
    pub convnext: CodecConvNextWeights<'a, S>,
}

/// The frames a latent upsampling stage retains.
pub struct UpsampleContext<S> {
    /// Input frames of the transposed convolution.
    pub transposed: Seq<Seq<S>>,
    /// Input frames of the depthwise convolution.
    pub mixed: Seq<Seq<S>>,
}

/// Retained causal context for one latent upsampling stage.
pub struct CodecUpsampleStageStream<A: Arithmetic> {
    /// Context of the transposed convolution.
    pub transposed: CausalTransposeConvStream<A>,
    /// Context of the ConvNeXt block.
    pub convnext: CausalDepthwiseConvStream<A>,
}

impl<A: Arithmetic> CodecUpsampleStageStream<A> {
    /// The retained frames.
    pub open spec fn context(&self) -> UpsampleContext<A::Scalar> {
        UpsampleContext {
            transposed: self.transposed.history(),
            mixed: self.convnext.history(),
        }
    }

    /// Drops the retained context.
    pub fn clear(&mut self)
        requires
            old(self).transposed.wf(),
            old(self).convnext.wf(),
        ensures
            final(self).context() == no_upsample_context::<A::Scalar>(),
            final(self).transposed.wf(),
            final(self).transposed.channels() == old(self).transposed.channels(),
            final(self).transposed.outputs() == old(self).transposed.outputs(),
            final(self).transposed.taps() == old(self).transposed.taps(),
            final(self).transposed.step() == old(self).transposed.step(),
            final(self).convnext.wf(),
            final(self).convnext.width() == old(self).convnext.width(),
            final(self).convnext.taps() == old(self).convnext.taps(),
    {
        self.transposed.clear();
        self.convnext.clear();
    }
}

/// A stage that has seen nothing.
pub open spec fn no_upsample_context<S>() -> UpsampleContext<S> {
    UpsampleContext { transposed: Seq::empty(), mixed: Seq::empty() }
}

impl<'a, S: Copy> CodecUpsampleStageWeights<'a, S> {
    /// That the buffers fit together.
    pub open spec fn fits(&self) -> bool {
        &&& self.transposed.fits()
        &&& self.convnext.fits(self.transposed.output_channels as int)
    }

    /// The whole-sequence stage.
    pub open spec fn whole<A: Arithmetic<Scalar = S>>(&self, x: Seq<Seq<S>>) -> Seq<Seq<S>> {
        self.convnext.whole::<A>(
            self.transposed.whole::<A>(x),
            self.transposed.output_channels as int,
        )
    }

    /// What a stream emits for a packet.
    pub open spec fn emitted<A: Arithmetic<Scalar = S>>(
        &self,
        context: UpsampleContext<S>,
        packet: Seq<Seq<S>>,
    ) -> Seq<Seq<S>> {
        self.convnext.emitted::<A>(
            context.mixed,
            self.transposed.emitted::<A>(context.transposed, packet),
            self.transposed.output_channels as int,
        )
    }

    /// What a stream retains after a packet.
    pub open spec fn retained<A: Arithmetic<Scalar = S>>(
        &self,
        context: UpsampleContext<S>,
        packet: Seq<Seq<S>>,
    ) -> UpsampleContext<S> {
        UpsampleContext {
            transposed: self.transposed.retained(context.transposed, packet),
            mixed: self.convnext.retained(
                context.mixed,
                self.transposed.emitted::<A>(context.transposed, packet),
            ),
        }
    }

    /// That a stream was made for these weights.
    pub open spec fn drives<A: Arithmetic<Scalar = S>>(
        &self,
        stream: CodecUpsampleStageStream<A>,
    ) -> bool {
        &&& self.transposed.drives(stream.transposed)
        &&& self.convnext.drives(stream.convnext, self.transposed.output_channels as int)
    }

    /// The whole-sequence stage over rows.
    pub fn forward<A: Arithmetic<Scalar = S>>(&self, x: &Vec<Vec<S>>) -> (out: Vec<Vec<S>>)
        requires
            self.fits(),
            rows::uniform(rows::deep(x@), self.transposed.input_channels as int),
            x@.len() * self.transposed.stride <= usize::MAX,
        ensures
            out@.len() == x@.len() * self.transposed.stride,
            rows::uniform(rows::deep(out@), self.transposed.output_channels as int),
            arith::pure::<A>() ==> rows::deep(out@) == self.whole::<A>(rows::deep(x@)),
    {
        let raised = self.transposed.forward::<A>(x);
        self.convnext.forward::<A>(&raised, self.transposed.output_channels)
    }

    /// An empty stream for these weights.
    pub fn stream<A: Arithmetic<Scalar = S>>(&self) -> (stream: CodecUpsampleStageStream<A>)
        requires
            self.fits(),
            self.transposed.input_channels > 0,
            self.transposed.output_channels > 0,
        ensures
            self.drives(stream),
            stream.context() == no_upsample_context::<S>(),
    {
        CodecUpsampleStageStream {
            transposed: self.transposed.stream::<A>(),
            convnext: CausalDepthwiseConvStream::<A>::new(
                self.transposed.output_channels,
                CONVNEXT_KERNEL,
            ),
        }
    }

    /// One packet through a stream.
    pub fn push<A: Arithmetic<Scalar = S>>(
        &self,
        stream: &mut CodecUpsampleStageStream<A>,
        packet: &Vec<Vec<S>>,
    ) -> (out: Vec<Vec<S>>)
        requires
            self.fits(),
            self.drives(*old(stream)),
            rows::uniform(rows::deep(packet@), self.transposed.input_channels as int),
            self.transposed.countable(packet@.len() as int),
        ensures
            self.drives(*final(stream)),
            out@.len() == packet@.len() * self.transposed.stride,
            rows::uniform(rows::deep(out@), self.transposed.output_channels as int),
            arith::pure::<A>() ==> {
                &&& final(stream).context() == self.retained::<A>(
                    old(stream).context(),
                    rows::deep(packet@),
                )
                &&& rows::deep(out@) == self.emitted::<A>(
                    old(stream).context(),
                    rows::deep(packet@),
                )
            },
    {
        let raised = self.transposed.push::<A>(&mut stream.transposed, packet);
        self.convnext.push::<A>(&mut stream.convnext, &raised, self.transposed.output_channels)
    }
}

/// One residual unit: SnakeBeta, convolution, SnakeBeta, convolution, then the input added back.
#[derive(Clone, Copy, Debug)]
pub struct CodecResidualUnitWeights<'a, S> {
    /// First SnakeBeta's `alpha` logarithms.
    pub first_alpha_log: &'a [S],
    /// First SnakeBeta's `beta` logarithms.
    pub first_beta_log: &'a [S],
    /// First convolution.
    pub first_conv: CausalConvWeights<'a, S>,
    /// Second SnakeBeta's `alpha` logarithms.
    pub second_alpha_log: &'a [S],
    /// Second SnakeBeta's `beta` logarithms.
    pub second_beta_log: &'a [S],
    /// Second convolution.
    pub second_conv: CausalConvWeights<'a, S>,
}

/// The frames a residual unit retains.
pub struct ResidualContext<S> {
    /// Input frames of the first convolution.
    pub first: Seq<Seq<S>>,
    /// Input frames of the second convolution.
    pub second: Seq<Seq<S>>,
}

/// Retained causal context for one residual unit.
pub struct CodecResidualUnitStream<A: Arithmetic> {
    /// Context of the first convolution.
    pub first_conv: CausalConvStream<A>,
    /// Context of the second convolution.
    pub second_conv: CausalConvStream<A>,
}

impl<A: Arithmetic> CodecResidualUnitStream<A> {
    /// The retained frames.
    pub open spec fn context(&self) -> ResidualContext<A::Scalar> {
        ResidualContext { first: self.first_conv.history(), second: self.second_conv.history() }
    }

    /// Drops the retained context.
    fn clear(&mut self)
        requires
            old(self).first_conv.wf(),
            old(self).second_conv.wf(),
        ensures
            final(self).context() == no_residual_context::<A::Scalar>(),
            final(self).first_conv.wf(),
            final(self).first_conv.channels() == old(self).first_conv.channels(),
            final(self).first_conv.taps() == old(self).first_conv.taps(),
            final(self).first_conv.spacing() == old(self).first_conv.spacing(),
            final(self).second_conv.wf(),
            final(self).second_conv.channels() == old(self).second_conv.channels(),
            final(self).second_conv.taps() == old(self).second_conv.taps(),
            final(self).second_conv.spacing() == old(self).second_conv.spacing(),
    {
        self.first_conv.clear();
        self.second_conv.clear();
    }
}

/// A unit that has seen nothing.
pub open spec fn no_residual_context<S>() -> ResidualContext<S> {
    ResidualContext { first: Seq::empty(), second: Seq::empty() }
}

impl<'a, S: Copy> CodecResidualUnitWeights<'a, S> {
    /// That the buffers fit a unit of `channels`.
    pub open spec fn fits(&self, channels: int) -> bool {
        &&& self.first_alpha_log@.len() == channels
        &&& self.first_beta_log@.len() == channels
        &&& self.first_conv.fits()
        &&& self.first_conv.input_channels == channels
        &&& self.second_alpha_log@.len() == self.first_conv.output_channels
        &&& self.second_beta_log@.len() == self.first_conv.output_channels
        &&& self.second_conv.fits()
        &&& self.second_conv.input_channels == self.first_conv.output_channels
        &&& self.second_conv.output_channels == channels
    }

    /// The whole-sequence unit.
    pub open spec fn whole<A: Arithmetic<Scalar = S>>(&self, x: Seq<Seq<S>>) -> Seq<Seq<S>> {
        let bent = snake_of::<A>(x, self.first_alpha_log@, self.first_beta_log@);
        let spread = self.first_conv.whole::<A>(bent);
        let again = snake_of::<A>(spread, self.second_alpha_log@, self.second_beta_log@);
        sum_rows_of::<A>(self.second_conv.whole::<A>(again), x)
    }

    /// The frames that reach the second convolution for a packet.
    pub open spec fn halfway<A: Arithmetic<Scalar = S>>(
        &self,
        context: ResidualContext<S>,
        packet: Seq<Seq<S>>,
    ) -> Seq<Seq<S>> {
        let bent = snake_of::<A>(packet, self.first_alpha_log@, self.first_beta_log@);
        let spread = self.first_conv.emitted::<A>(context.first, bent);
        snake_of::<A>(spread, self.second_alpha_log@, self.second_beta_log@)
    }

    /// What a stream emits for a packet.
    pub open spec fn emitted<A: Arithmetic<Scalar = S>>(
        &self,
        context: ResidualContext<S>,
        packet: Seq<Seq<S>>,
    ) -> Seq<Seq<S>> {
        sum_rows_of::<A>(
            self.second_conv.emitted::<A>(
                context.second,
                self.halfway::<A>(context, packet),
            ),
            packet,
        )
    }

    /// What a stream retains after a packet.
    pub open spec fn retained<A: Arithmetic<Scalar = S>>(
        &self,
        context: ResidualContext<S>,
        packet: Seq<Seq<S>>,
    ) -> ResidualContext<S> {
        ResidualContext {
            first: self.first_conv.retained(
                context.first,
                snake_of::<A>(packet, self.first_alpha_log@, self.first_beta_log@),
            ),
            second: self.second_conv.retained(
                context.second,
                self.halfway::<A>(context, packet),
            ),
        }
    }

    /// That a stream was made for these weights.
    pub open spec fn drives<A: Arithmetic<Scalar = S>>(
        &self,
        stream: CodecResidualUnitStream<A>,
    ) -> bool {
        &&& self.first_conv.drives(stream.first_conv)
        &&& self.second_conv.drives(stream.second_conv)
    }

    /// The whole-sequence unit over rows.
    fn forward<A: Arithmetic<Scalar = S>>(&self, x: &Vec<Vec<S>>, channels: usize) -> (out: Vec<
        Vec<S>,
    >)
        requires
            self.fits(channels as int),
            rows::uniform(rows::deep(x@), channels as int),
        ensures
            out@.len() == x@.len(),
            rows::uniform(rows::deep(out@), channels as int),
            arith::pure::<A>() ==> rows::deep(out@) == self.whole::<A>(rows::deep(x@)),
    {
        let bent = snake_rows::<A>(x, self.first_alpha_log, self.first_beta_log);
        let spread = self.first_conv.forward::<A>(&bent);
        let again = snake_rows::<A>(&spread, self.second_alpha_log, self.second_beta_log);
        let branch = self.second_conv.forward::<A>(&again);
        sum_rows::<A>(&branch, x, Ghost(channels as int))
    }

    /// An empty stream for these weights.
    fn stream<A: Arithmetic<Scalar = S>>(&self) -> (stream: CodecResidualUnitStream<A>)
        requires
            self.first_conv.fits(),
            self.second_conv.fits(),
            self.first_conv.input_channels > 0,
            self.second_conv.input_channels > 0,
        ensures
            self.drives(stream),
            stream.context() == no_residual_context::<S>(),
    {
        CodecResidualUnitStream {
            first_conv: self.first_conv.stream::<A>(),
            second_conv: self.second_conv.stream::<A>(),
        }
    }

    /// One packet through a stream.
    fn push<A: Arithmetic<Scalar = S>>(
        &self,
        stream: &mut CodecResidualUnitStream<A>,
        packet: &Vec<Vec<S>>,
        channels: usize,
    ) -> (out: Vec<Vec<S>>)
        requires
            self.fits(channels as int),
            self.drives(*old(stream)),
            rows::uniform(rows::deep(packet@), channels as int),
        ensures
            self.drives(*final(stream)),
            out@.len() == packet@.len(),
            rows::uniform(rows::deep(out@), channels as int),
            arith::pure::<A>() ==> {
                &&& final(stream).context() == self.retained::<A>(
                    old(stream).context(),
                    rows::deep(packet@),
                )
                &&& rows::deep(out@) == self.emitted::<A>(
                    old(stream).context(),
                    rows::deep(packet@),
                )
            },
    {
        let bent = snake_rows::<A>(packet, self.first_alpha_log, self.first_beta_log);
        let spread = self.first_conv.push::<A>(&mut stream.first_conv, &bent);
        let again = snake_rows::<A>(&spread, self.second_alpha_log, self.second_beta_log);
        let branch = self.second_conv.push::<A>(&mut stream.second_conv, &again);
        sum_rows::<A>(&branch, packet, Ghost(channels as int))
    }
}

/// One waveform upsampling block: SnakeBeta, a transposed convolution, three residual units.
#[derive(Clone, Copy, Debug)]
pub struct CodecDecoderBlockWeights<'a, S> {
    /// SnakeBeta's `alpha` logarithms.
    pub alpha_log: &'a [S],
    /// SnakeBeta's `beta` logarithms.
    pub beta_log: &'a [S],
    /// The transposed convolution.
    pub transposed: CausalTransposeConvWeights<'a, S>,
    /// The residual units, at dilations 1, 3 and 9.
    pub residual_units: [CodecResidualUnitWeights<'a, S>; 3],
}

/// The frames a waveform block retains.
pub struct BlockContext<S> {
    /// Input frames of the transposed convolution.
    pub transposed: Seq<Seq<S>>,
    /// What each residual unit retains.
    pub units: Seq<ResidualContext<S>>,
}

/// Retained causal context for one waveform block.
pub struct CodecDecoderBlockStream<A: Arithmetic> {
    /// Context of the transposed convolution.
    pub transposed: CausalTransposeConvStream<A>,
    /// Context of each residual unit.
    pub residual_units: Vec<CodecResidualUnitStream<A>>,
}

impl<A: Arithmetic> CodecDecoderBlockStream<A> {
    /// The retained frames.
    pub open spec fn context(&self) -> BlockContext<A::Scalar> {
        BlockContext {
            transposed: self.transposed.history(),
            units: Seq::new(
                self.residual_units@.len(),
                |i: int| self.residual_units@[i].context(),
            ),
        }
    }
}

impl<A: Arithmetic> CodecDecoderBlockStream<A> {
    /// Three units, and every convolution in order.
    pub open spec fn wf(&self) -> bool {
        &&& self.transposed.wf()
        &&& self.residual_units@.len() == 3
        &&& forall|i: int|
            0 <= i < 3 ==> {
                &&& (#[trigger] self.residual_units@[i]).first_conv.wf()
                &&& self.residual_units@[i].second_conv.wf()
            }
    }

    /// That two streams have one geometry.
    pub open spec fn like(&self, other: &Self) -> bool {
        &&& self.transposed.channels() == other.transposed.channels()
        &&& self.transposed.outputs() == other.transposed.outputs()
        &&& self.transposed.taps() == other.transposed.taps()
        &&& self.transposed.step() == other.transposed.step()
        &&& self.residual_units@.len() == other.residual_units@.len()
        &&& forall|i: int|
            0 <= i < self.residual_units@.len() ==> {
                let a = #[trigger] self.residual_units@[i];
                let b = other.residual_units@[i];
                &&& a.first_conv.channels() == b.first_conv.channels()
                &&& a.first_conv.taps() == b.first_conv.taps()
                &&& a.first_conv.spacing() == b.first_conv.spacing()
                &&& a.second_conv.channels() == b.second_conv.channels()
                &&& a.second_conv.taps() == b.second_conv.taps()
                &&& a.second_conv.spacing() == b.second_conv.spacing()
            }
    }

    /// Drops the retained context.
    pub fn clear(&mut self)
        requires
            old(self).wf(),
        ensures
            final(self).wf(),
            final(self).like(old(self)),
            final(self).context() == no_block_context::<A::Scalar>(),
    {
        let ghost start = *self;
        self.transposed.clear();
        for i in 0..3
            invariant
                self.wf(),
                self.like(&start),
                self.transposed.history() == Seq::<Seq<A::Scalar>>::empty(),
                forall|j: int|
                    0 <= j < i ==> (#[trigger] self.residual_units@[j]).context()
                        == no_residual_context::<A::Scalar>(),
        {
            self.residual_units[i].clear();
        }
        proof {
            assert(self.context().units =~= no_block_context::<A::Scalar>().units);
        }
    }
}

/// A block that has seen nothing.
pub open spec fn no_block_context<S>() -> BlockContext<S> {
    BlockContext {
        transposed: Seq::empty(),
        units: Seq::new(3, |i: int| no_residual_context::<S>()),
    }
}

impl<'a, S: Copy> CodecDecoderBlockWeights<'a, S> {
    /// That the buffers fit together.
    pub open spec fn fits(&self) -> bool {
        &&& self.alpha_log@.len() == self.transposed.input_channels
        &&& self.beta_log@.len() == self.transposed.input_channels
        &&& self.transposed.fits()
        &&& forall|i: int|
            0 <= i < 3 ==> (#[trigger] self.residual_units@[i]).fits(
                self.transposed.output_channels as int,
            )
    }

    /// The first `n` residual units over a whole sequence.
    pub open spec fn units_whole<A: Arithmetic<Scalar = S>>(
        &self,
        x: Seq<Seq<S>>,
        n: int,
    ) -> Seq<Seq<S>>
        decreases n,
    {
        if n <= 0 {
            x
        } else {
            self.residual_units@[n - 1].whole::<A>(self.units_whole::<A>(x, n - 1))
        }
    }

    /// The frames that reach the residual units over a whole sequence.
    pub open spec fn raised<A: Arithmetic<Scalar = S>>(&self, x: Seq<Seq<S>>) -> Seq<Seq<S>> {
        self.transposed.whole::<A>(snake_of::<A>(x, self.alpha_log@, self.beta_log@))
    }

    /// The whole-sequence block.
    pub open spec fn whole<A: Arithmetic<Scalar = S>>(&self, x: Seq<Seq<S>>) -> Seq<Seq<S>> {
        self.units_whole::<A>(self.raised::<A>(x), 3)
    }

    /// What the first `n` residual units emit for a packet.
    pub open spec fn units_emitted<A: Arithmetic<Scalar = S>>(
        &self,
        contexts: Seq<ResidualContext<S>>,
        packet: Seq<Seq<S>>,
        n: int,
    ) -> Seq<Seq<S>>
        decreases n,
    {
        if n <= 0 {
            packet
        } else {
            self.residual_units@[n - 1].emitted::<A>(
                contexts[n - 1],
                self.units_emitted::<A>(contexts, packet, n - 1),
            )
        }
    }

    /// The frames that reach the residual units for a packet.
    pub open spec fn raised_packet<A: Arithmetic<Scalar = S>>(
        &self,
        context: BlockContext<S>,
        packet: Seq<Seq<S>>,
    ) -> Seq<Seq<S>> {
        self.transposed.emitted::<A>(
            context.transposed,
            snake_of::<A>(packet, self.alpha_log@, self.beta_log@),
        )
    }

    /// What a stream emits for a packet.
    pub open spec fn emitted<A: Arithmetic<Scalar = S>>(
        &self,
        context: BlockContext<S>,
        packet: Seq<Seq<S>>,
    ) -> Seq<Seq<S>> {
        self.units_emitted::<A>(context.units, self.raised_packet::<A>(context, packet), 3)
    }

    /// What a stream retains after a packet.
    pub open spec fn retained<A: Arithmetic<Scalar = S>>(
        &self,
        context: BlockContext<S>,
        packet: Seq<Seq<S>>,
    ) -> BlockContext<S> {
        let raised = self.raised_packet::<A>(context, packet);
        BlockContext {
            transposed: self.transposed.retained(
                context.transposed,
                snake_of::<A>(packet, self.alpha_log@, self.beta_log@),
            ),
            units: Seq::new(
                3,
                |i: int|
                    self.residual_units@[i].retained::<A>(
                        context.units[i],
                        self.units_emitted::<A>(context.units, raised, i),
                    ),
            ),
        }
    }

    /// That a stream was made for these weights.
    pub open spec fn drives<A: Arithmetic<Scalar = S>>(
        &self,
        stream: CodecDecoderBlockStream<A>,
    ) -> bool {
        &&& self.transposed.drives(stream.transposed)
        &&& stream.residual_units@.len() == 3
        &&& forall|i: int|
            0 <= i < 3 ==> self.residual_units@[i].drives(#[trigger] stream.residual_units@[i])
    }

    /// The whole-sequence block over rows.
    pub fn forward<A: Arithmetic<Scalar = S>>(&self, x: &Vec<Vec<S>>) -> (out: Vec<Vec<S>>)
        requires
            self.fits(),
            rows::uniform(rows::deep(x@), self.transposed.input_channels as int),
            x@.len() * self.transposed.stride <= usize::MAX,
        ensures
            out@.len() == x@.len() * self.transposed.stride,
            rows::uniform(rows::deep(out@), self.transposed.output_channels as int),
            arith::pure::<A>() ==> rows::deep(out@) == self.whole::<A>(rows::deep(x@)),
    {
        let bent = snake_rows::<A>(x, self.alpha_log, self.beta_log);
        let mut hidden = self.transposed.forward::<A>(&bent);
        let ghost raised = self.raised::<A>(rows::deep(x@));
        for i in 0..3
            invariant
                self.fits(),
                hidden@.len() == x@.len() * self.transposed.stride,
                rows::uniform(rows::deep(hidden@), self.transposed.output_channels as int),
                arith::pure::<A>() ==> rows::deep(hidden@) == self.units_whole::<A>(
                    raised,
                    i as int,
                ),
        {
            proof {
                assert(self.residual_units@[i as int].fits(self.transposed.output_channels as int));
            }
            let unit = self.residual_units[i];
            hidden = unit.forward::<A>(&hidden, self.transposed.output_channels);
        }
        hidden
    }

    /// An empty stream for these weights.
    pub fn stream<A: Arithmetic<Scalar = S>>(&self) -> (stream: CodecDecoderBlockStream<A>)
        requires
            self.fits(),
            self.transposed.input_channels > 0,
            self.transposed.output_channels > 0,
            forall|i: int|
                0 <= i < 3 ==> (#[trigger] self.residual_units@[i]).second_conv.input_channels > 0,
        ensures
            self.drives(stream),
            stream.context() == no_block_context::<S>(),
    {
        let mut units: Vec<CodecResidualUnitStream<A>> = Vec::new();
        for i in 0..3
            invariant
                self.fits(),
                self.transposed.output_channels > 0,
                forall|j: int|
                    0 <= j < 3 ==> (#[trigger] self.residual_units@[j]).second_conv.input_channels
                        > 0,
                units@.len() == i,
                forall|j: int|
                    0 <= j < i ==> {
                        &&& self.residual_units@[j].drives(#[trigger] units@[j])
                        &&& units@[j].context() == no_residual_context::<S>()
                    },
        {
            proof {
                assert(self.residual_units@[i as int].fits(self.transposed.output_channels as int));
            }
            let unit = self.residual_units[i];
            units.push(unit.stream::<A>());
        }
        let stream = CodecDecoderBlockStream {
            transposed: self.transposed.stream::<A>(),
            residual_units: units,
        };
        proof {
            assert(stream.context().units =~= no_block_context::<S>().units);
        }
        stream
    }

    /// One packet through a stream.
    pub fn push<A: Arithmetic<Scalar = S>>(
        &self,
        stream: &mut CodecDecoderBlockStream<A>,
        packet: &Vec<Vec<S>>,
    ) -> (out: Vec<Vec<S>>)
        requires
            self.fits(),
            self.drives(*old(stream)),
            rows::uniform(rows::deep(packet@), self.transposed.input_channels as int),
            self.transposed.countable(packet@.len() as int),
        ensures
            self.drives(*final(stream)),
            out@.len() == packet@.len() * self.transposed.stride,
            rows::uniform(rows::deep(out@), self.transposed.output_channels as int),
            arith::pure::<A>() ==> {
                &&& final(stream).context() == self.retained::<A>(
                    old(stream).context(),
                    rows::deep(packet@),
                )
                &&& rows::deep(out@) == self.emitted::<A>(
                    old(stream).context(),
                    rows::deep(packet@),
                )
            },
    {
        let ghost context = stream.context();
        let ghost start = rows::deep(packet@);
        let bent = snake_rows::<A>(packet, self.alpha_log, self.beta_log);
        let mut hidden = self.transposed.push::<A>(&mut stream.transposed, &bent);
        let ghost raised = self.raised_packet::<A>(context, start);
        for i in 0..3
            invariant
                self.fits(),
                self.drives(*stream),
                arith::pure::<A>() ==> stream.transposed.history() == self.retained::<A>(
                    context,
                    start,
                ).transposed,
                raised == self.raised_packet::<A>(context, start),
                hidden@.len() == packet@.len() * self.transposed.stride,
                rows::uniform(rows::deep(hidden@), self.transposed.output_channels as int),
                forall|j: int|
                    i <= j < 3 ==> (#[trigger] stream.residual_units@[j]).context()
                        == context.units[j],
                arith::pure::<A>() ==> {
                    &&& rows::deep(hidden@) == self.units_emitted::<A>(
                        context.units,
                        raised,
                        i as int,
                    )
                    &&& forall|j: int|
                        0 <= j < i ==> (#[trigger] stream.residual_units@[j]).context()
                            == self.residual_units@[j].retained::<A>(
                            context.units[j],
                            self.units_emitted::<A>(context.units, raised, j),
                        )
                },
        {
            let ghost before = stream.residual_units@;
            proof {
                assert(self.residual_units@[i as int].fits(self.transposed.output_channels as int));
                assert(self.residual_units@[i as int].drives(before[i as int]));
            }
            let unit = self.residual_units[i];
            hidden = unit.push::<A>(
                &mut stream.residual_units[i],
                &hidden,
                self.transposed.output_channels,
            );
            proof {
                assert forall|j: int| 0 <= j < 3 implies self.residual_units@[j].drives(
                    #[trigger] stream.residual_units@[j],
                ) by {
                    assert(self.residual_units@[j].drives(before[j]));
                }
            }
        }
        proof {
            if arith::pure::<A>() {
                assert(stream.context().units =~= self.retained::<A>(context, start).units);
            }
        }
        hidden
    }
}

/// Runs one waveform block over a whole sequence, returning its output and its frame count.
pub fn forward_decoder_block<'a, A: Arithmetic>(
    input: &[A::Scalar],
    frames: usize,
    input_channels: usize,
    weights: CodecDecoderBlockWeights<'a, A::Scalar>,
) -> (result: (Vec<A::Scalar>, usize))
    requires
        weights.fits(),
        input_channels == weights.transposed.input_channels,
        input@.len() == frames * input_channels,
        frames * weights.transposed.stride <= usize::MAX,
    ensures
        result.1 == frames * weights.transposed.stride,
        result.0@.len() == result.1 * weights.transposed.output_channels,
        arith::pure::<A>() ==> result.0@ == weights.whole::<A>(
            rows::unstack(input@, frames as int, input_channels as int),
        ).flatten(),
{
    let x = split_rows(input, frames, input_channels);
    proof {
        assert(rows::deep(x@).len() == frames);
    }
    let y = weights.forward::<A>(&x);
    proof {
        rows::lemma_flatten_len(rows::deep(y@), weights.transposed.output_channels as int);
    }
    (join_rows(&y), frames * weights.transposed.stride)
}

} // verus!
