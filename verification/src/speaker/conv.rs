//! Convolutions that keep the length of their input by mirroring it at both ends.
use vstd::prelude::*;
use crate::arith;
use crate::arith::{Arithmetic, Binary, Constant, Reduction};
use crate::arith::{binary, constant};
use crate::kernels;
use crate::kernels::linear;
use crate::rows;
use crate::rows::{join_rows, split_rows, store};
use crate::speaker;
use crate::speaker::reflect_index;

verus! {

/// How far the first tap of a kernel stands before the frame it writes.
pub open spec fn left_pad(kernel: int, dilation: int) -> int {
    dilation * (kernel - 1) / 2
}

/// The frame that tap `tap` of output frame `t` reads.
pub open spec fn tap_frame(frames: int, t: int, tap: int, kernel: int, dilation: int) -> int {
    speaker::reflected(t + tap * dilation - left_pad(kernel, dilation), frames)
}

/// The unfolded input of output frame `t`, channel by channel, the first tap first.
pub open spec fn same_column<S>(
    x: Seq<Seq<S>>,
    t: int,
    channels: int,
    kernel: int,
    dilation: int,
) -> Seq<S> {
    Seq::new(
        channels as nat,
        |c: int|
            Seq::new(
                kernel as nat,
                |tap: int| x[tap_frame(x.len() as int, t, tap, kernel, dilation)][c],
            ),
    ).flatten()
}

/// A convolution that keeps the length: one seeded reduction per frame and output channel.
pub open spec fn same_conv_of<A: Arithmetic>(
    x: Seq<Seq<A::Scalar>>,
    input_channels: int,
    weight: Seq<A::Scalar>,
    bias: Option<Seq<A::Scalar>>,
    output_channels: int,
    kernel: int,
    dilation: int,
) -> Seq<Seq<A::Scalar>> {
    Seq::new(
        x.len(),
        |t: int|
            kernels::linear_of::<A>(
                Reduction::ClipConvolution,
                same_column(x, t, input_channels, kernel, dilation),
                weight,
                bias,
                output_channels,
            ),
    )
}

/// That the positions a kernel reads can be counted.
pub open spec fn reach_fits(frames: int, kernel: int, dilation: int) -> bool {
    &&& kernel > 0
    &&& dilation > 0
    &&& 2 * frames + (kernel - 1) * dilation <= isize::MAX
}

/// The unfolded input of one output frame.
fn column<S: Copy>(x: &Vec<Vec<S>>, t: usize, channels: usize, kernel: usize, dilation: usize) -> (
    out: Vec<S>)
    requires
        t < x@.len(),
        rows::uniform(rows::deep(x@), channels as int),
        reach_fits(x@.len() as int, kernel as int, dilation as int),
    ensures
        out@ == same_column(
            rows::deep(x@),
            t as int,
            channels as int,
            kernel as int,
            dilation as int,
        ),
        out@.len() == channels * kernel,
{
    let frames: usize = x.len();
    let ghost all = rows::deep(x@);
    proof {
        assert(dilation * (kernel - 1) == (kernel - 1) * dilation) by (nonlinear_arith);
        assert(0 <= (kernel - 1) * dilation) by (nonlinear_arith)
            requires
                kernel > 0,
        ;
    }
    let before: usize = dilation * (kernel - 1) / 2;
    let ghost want = Seq::new(
        channels as nat,
        |c: int|
            Seq::new(
                kernel as nat,
                |tap: int|
                    all[tap_frame(
                        frames as int,
                        t as int,
                        tap,
                        kernel as int,
                        dilation as int,
                    )][c],
            ),
    );
    let mut blocks: Vec<Vec<S>> = Vec::new();
    for c in 0..channels
        invariant
            frames == x@.len(),
            t < frames,
            all == rows::deep(x@),
            rows::uniform(all, channels as int),
            reach_fits(frames as int, kernel as int, dilation as int),
            before == left_pad(kernel as int, dilation as int),
            want.len() == channels,
            forall|j: int| 0 <= j < channels ==> (#[trigger] want[j]).len() == kernel,
            forall|j: int, tap: int|
                0 <= j < channels && 0 <= tap < kernel ==> #[trigger] want[j][tap]
                    == all[tap_frame(
                    frames as int,
                    t as int,
                    tap,
                    kernel as int,
                    dilation as int,
                )][j],
            blocks@.len() == c,
            forall|j: int| 0 <= j < c ==> (#[trigger] blocks@[j])@ == want[j],
    {
        let mut block: Vec<S> = Vec::new();
        for tap in 0..kernel
            invariant
                c < channels,
                frames == x@.len(),
                t < frames,
                all == rows::deep(x@),
                rows::uniform(all, channels as int),
                reach_fits(frames as int, kernel as int, dilation as int),
                before == left_pad(kernel as int, dilation as int),
                block@.len() == tap,
                forall|j: int|
                    0 <= j < tap ==> #[trigger] block@[j] == all[tap_frame(
                        frames as int,
                        t as int,
                        j,
                        kernel as int,
                        dilation as int,
                    )][c as int],
        {
            proof {
                assert(0 <= tap * dilation <= (kernel - 1) * dilation) by (nonlinear_arith)
                    requires
                        0 <= tap <= kernel - 1,
                        dilation > 0,
                ;
                assert(dilation * (kernel - 1) == (kernel - 1) * dilation) by (nonlinear_arith);
            }
            let offset: isize = (t + tap * dilation) as isize - before as isize;
            let at: usize = reflect_index(offset, frames as isize);
            proof {
                assert(all[at as int].len() == channels);
            }
            block.push(x[at][c]);
        }
        proof {
            assert(block@ =~= want[c as int]);
        }
        blocks.push(block);
    }
    proof {
        assert(rows::deep(blocks@) =~= want);
        rows::lemma_flatten_len(want, kernel as int);
    }
    join_rows(&blocks)
}

/// The convolution over rows.
pub fn same_rows<A: Arithmetic>(
    x: &Vec<Vec<A::Scalar>>,
    input_channels: usize,
    weight: &[A::Scalar],
    bias: Option<&[A::Scalar]>,
    output_channels: usize,
    kernel: usize,
    dilation: usize,
) -> (out: Vec<Vec<A::Scalar>>)
    requires
        rows::uniform(rows::deep(x@), input_channels as int),
        weight@.len() == output_channels * input_channels * kernel,
        bias matches Some(values) ==> values@.len() == output_channels,
        reach_fits(x@.len() as int, kernel as int, dilation as int),
    ensures
        out@.len() == x@.len(),
        rows::uniform(rows::deep(out@), output_channels as int),
        arith::pure::<A>() ==> rows::deep(out@) == same_conv_of::<A>(
            rows::deep(x@),
            input_channels as int,
            weight@,
            kernels::opt_view(bias),
            output_channels as int,
            kernel as int,
            dilation as int,
        ),
{
    let mut out: Vec<Vec<A::Scalar>> = Vec::new();
    for t in 0..x.len()
        invariant
            rows::uniform(rows::deep(x@), input_channels as int),
            weight@.len() == output_channels * input_channels * kernel,
            bias matches Some(values) ==> values@.len() == output_channels,
            reach_fits(x@.len() as int, kernel as int, dilation as int),
            out@.len() == t,
            forall|j: int| 0 <= j < t ==> (#[trigger] out@[j])@.len() == output_channels,
            arith::pure::<A>() ==> forall|j: int|
                0 <= j < t ==> (#[trigger] out@[j])@ == kernels::linear_of::<A>(
                    Reduction::ClipConvolution,
                    same_column(
                        rows::deep(x@),
                        j,
                        input_channels as int,
                        kernel as int,
                        dilation as int,
                    ),
                    weight@,
                    kernels::opt_view(bias),
                    output_channels as int,
                ),
    {
        let column = column(x, t, input_channels, kernel, dilation);
        proof {
            assert(output_channels * input_channels * kernel == output_channels * (input_channels
                * kernel)) by (nonlinear_arith);
        }
        out.push(
            linear::<A>(
                Reduction::ClipConvolution,
                column.as_slice(),
                weight,
                bias,
                output_channels,
            ),
        );
    }
    proof {
        if arith::pure::<A>() {
            assert(rows::deep(out@) =~= same_conv_of::<A>(
                rows::deep(x@),
                input_channels as int,
                weight@,
                kernels::opt_view(bias),
                output_channels as int,
                kernel as int,
                dilation as int,
            ));
        }
    }
    out
}

/// The convolution over frames laid end to end.
pub fn same_conv1d<A: Arithmetic>(
    input: &[A::Scalar],
    frames: usize,
    input_channels: usize,
    weight: &[A::Scalar],
    bias: Option<&[A::Scalar]>,
    output_channels: usize,
    kernel: usize,
    dilation: usize,
    output: &mut [A::Scalar],
)
    requires
        input@.len() == frames * input_channels,
        weight@.len() == output_channels * input_channels * kernel,
        bias matches Some(values) ==> values@.len() == output_channels,
        old(output)@.len() == frames * output_channels,
        reach_fits(frames as int, kernel as int, dilation as int),
    ensures
        final(output)@.len() == frames * output_channels,
        arith::pure::<A>() ==> final(output)@ == same_conv_of::<A>(
            rows::unstack(input@, frames as int, input_channels as int),
            input_channels as int,
            weight@,
            kernels::opt_view(bias),
            output_channels as int,
            kernel as int,
            dilation as int,
        ).flatten(),
{
    let x = split_rows(input, frames, input_channels);
    proof {
        assert(rows::deep(x@).len() == frames);
    }
    let out = same_rows::<A>(
        &x,
        input_channels,
        weight,
        bias,
        output_channels,
        kernel,
        dilation,
    );
    let flat = join_rows(&out);
    proof {
        rows::lemma_flatten_len(rows::deep(out@), output_channels as int);
    }
    store(output, flat.as_slice());
}

/// One convolution of the encoder: weight, bias and geometry.
pub struct Conv<S> {
    /// `[out_channels, in_channels, kernel]`.
    pub weight: Vec<S>,
    /// `[out_channels]`.
    pub bias: Vec<S>,
    /// Channels read.
    pub in_channels: usize,
    /// Channels written.
    pub out_channels: usize,
    /// Taps.
    pub kernel: usize,
    /// Frames between taps.
    pub dilation: usize,
}

/// Every value raised to zero at least.
pub open spec fn relu_of<A: Arithmetic>(x: Seq<A::Scalar>) -> Seq<A::Scalar> {
    Seq::new(
        x.len(),
        |i: int| arith::bin::<A>(Binary::Max, x[i], arith::cst::<A>(Constant::Zero)),
    )
}

/// Every value of every row raised to zero at least.
pub open spec fn relu_rows_of<A: Arithmetic>(x: Seq<Seq<A::Scalar>>) -> Seq<Seq<A::Scalar>> {
    Seq::new(x.len(), |t: int| relu_of::<A>(x[t]))
}

/// Raises every value to zero at least.
pub fn relu<A: Arithmetic>(x: &[A::Scalar]) -> (out: Vec<A::Scalar>)
    ensures
        out@.len() == x@.len(),
        arith::pure::<A>() ==> out@ == relu_of::<A>(x@),
{
    let zero = constant::<A>(Constant::Zero);
    let mut out: Vec<A::Scalar> = Vec::new();
    for i in 0..x.len()
        invariant
            arith::pure::<A>() ==> zero == arith::cst::<A>(Constant::Zero),
            out@.len() == i,
            arith::pure::<A>() ==> forall|j: int|
                0 <= j < i ==> #[trigger] out@[j] == arith::bin::<A>(
                    Binary::Max,
                    x@[j],
                    arith::cst::<A>(Constant::Zero),
                ),
    {
        out.push(binary::<A>(Binary::Max, x[i], zero));
    }
    proof {
        if arith::pure::<A>() {
            assert(out@ =~= relu_of::<A>(x@));
        }
    }
    out
}

impl<S: Copy> Conv<S> {
    /// That weight and bias have the shapes the geometry gives them.
    pub open spec fn fits(&self) -> bool {
        &&& self.weight@.len() == self.out_channels * self.in_channels * self.kernel
        &&& self.bias@.len() == self.out_channels
        &&& self.kernel > 0
        &&& self.dilation > 0
    }

    /// The convolution.
    pub open spec fn applied<A: Arithmetic<Scalar = S>>(&self, x: Seq<Seq<S>>) -> Seq<Seq<S>> {
        same_conv_of::<A>(
            x,
            self.in_channels as int,
            self.weight@,
            Some(self.bias@),
            self.out_channels as int,
            self.kernel as int,
            self.dilation as int,
        )
    }

    /// The convolution, every value raised to zero at least.
    pub open spec fn activated<A: Arithmetic<Scalar = S>>(&self, x: Seq<Seq<S>>) -> Seq<Seq<S>> {
        relu_rows_of::<A>(self.applied::<A>(x))
    }

    /// Applies the convolution.
    pub fn apply<A: Arithmetic<Scalar = S>>(&self, x: &Vec<Vec<S>>) -> (out: Vec<Vec<S>>)
        requires
            self.fits(),
            rows::uniform(rows::deep(x@), self.in_channels as int),
            reach_fits(x@.len() as int, self.kernel as int, self.dilation as int),
        ensures
            out@.len() == x@.len(),
            rows::uniform(rows::deep(out@), self.out_channels as int),
            arith::pure::<A>() ==> rows::deep(out@) == self.applied::<A>(rows::deep(x@)),
    {
        same_rows::<A>(
            x,
            self.in_channels,
            self.weight.as_slice(),
            Some(self.bias.as_slice()),
            self.out_channels,
            self.kernel,
            self.dilation,
        )
    }

    /// Applies the convolution and raises every value to zero at least.
    pub fn apply_relu<A: Arithmetic<Scalar = S>>(&self, x: &Vec<Vec<S>>) -> (out: Vec<Vec<S>>)
        requires
            self.fits(),
            rows::uniform(rows::deep(x@), self.in_channels as int),
            reach_fits(x@.len() as int, self.kernel as int, self.dilation as int),
        ensures
            out@.len() == x@.len(),
            rows::uniform(rows::deep(out@), self.out_channels as int),
            arith::pure::<A>() ==> rows::deep(out@) == self.activated::<A>(rows::deep(x@)),
    {
        let sums = self.apply::<A>(x);
        let mut out: Vec<Vec<S>> = Vec::new();
        for t in 0..sums.len()
            invariant
                rows::uniform(rows::deep(sums@), self.out_channels as int),
                out@.len() == t,
                forall|j: int| 0 <= j < t ==> (#[trigger] out@[j])@.len() == self.out_channels,
                arith::pure::<A>() ==> forall|j: int|
                    0 <= j < t ==> (#[trigger] out@[j])@ == relu_of::<A>(sums@[j]@),
        {
            proof {
                assert(rows::deep(sums@)[t as int].len() == self.out_channels);
            }
            out.push(relu::<A>(sums[t].as_slice()));
        }
        proof {
            if arith::pure::<A>() {
                assert(rows::deep(out@) =~= self.activated::<A>(rows::deep(x@)));
            }
        }
        out
    }
}

} // verus!
