//! Strided causal convolutions and the residual units between them.
use vstd::prelude::*;
use crate::arith;
use crate::arith::{
    constant, relation, unary, Arithmetic, Binary, Constant, Reduction, Relation, Unary,
};
use crate::kernels;
use crate::kernels::{linear, zip_with};
use crate::rows;
use crate::rows::{join_rows, split_rows, store};

verus! {

/// What stands before the first frame and behind the last.
#[derive(Clone, Copy, Debug, PartialEq, Eq, Structural)]
pub enum PadMode {
    /// Zeros.
    Constant,
    /// The frame at the edge.
    Replicate,
}

/// One convolution: its weights and its geometry.
#[derive(Clone, Debug)]
pub struct EncoderConv<S> {
    /// `[out_channels, in_channels, kernel]`.
    pub weight: Vec<S>,
    /// `[out_channels]`, where there is a bias.
    pub bias: Option<Vec<S>>,
    /// Channels read.
    pub in_channels: usize,
    /// Channels written.
    pub out_channels: usize,
    /// Taps.
    pub kernel: usize,
    /// Frames from one output to the next.
    pub stride: usize,
    /// What stands outside the frames.
    pub pad_mode: PadMode,
}

/// `n / d`, rounded up.
pub open spec fn ceil_div(n: int, d: int) -> int {
    (n + d - 1) / d
}

/// Rounding up twice is rounding up once by the product.
pub proof fn law_ceilings_compose(n: int, a: int, b: int)
    requires
        0 <= n,
        0 < a,
        0 < b,
    ensures
        ceil_div(ceil_div(n, a), b) == ceil_div(n, a * b),
{
    let q = ceil_div(n, a);
    vstd::arithmetic::div_mod::lemma_fundamental_div_mod(n + a - 1, a);
    let r = (n + a - 1) % a;
    assert(a * b > 0) by (nonlinear_arith)
        requires
            a > 0,
            b > 0,
    ;
    let p = ceil_div(q, b);
    vstd::arithmetic::div_mod::lemma_fundamental_div_mod(q + b - 1, b);
    let s = (q + b - 1) % b;
    assert(0 <= r < a && 0 <= s < b) by {
        vstd::arithmetic::div_mod::lemma_mod_bound(n + a - 1, a);
        vstd::arithmetic::div_mod::lemma_mod_bound(q + b - 1, b);
    }
    let rest = a * s + r;
    assert(n + a * b - 1 == p * (a * b) + rest) by (nonlinear_arith)
        requires
            n + a - 1 == a * q + r,
            q + b - 1 == b * p + s,
            rest == a * s + r,
    ;
    assert(0 <= rest < a * b) by (nonlinear_arith)
        requires
            0 <= r < a,
            0 <= s < b,
            rest == a * s + r,
    ;
    vstd::arithmetic::div_mod::lemma_fundamental_div_mod_converse(
        n + a * b - 1,
        a * b,
        p,
        rest,
    );
}

/// Channel `c` of the frame at `p`, which may stand outside the frames.
pub open spec fn edge_value<A: Arithmetic>(
    x: Seq<Seq<A::Scalar>>,
    mode: PadMode,
    p: int,
    c: int,
) -> A::Scalar {
    if 0 <= p < x.len() {
        x[p][c]
    } else {
        match mode {
            PadMode::Constant => arith::cst::<A>(Constant::Zero),
            PadMode::Replicate => if p < 0 {
                x[0][c]
            } else {
                x[x.len() - 1][c]
            },
        }
    }
}

impl<S: Copy> EncoderConv<S> {
    /// That weight and bias have the shapes the geometry gives them.
    pub open spec fn fits(&self) -> bool {
        &&& self.weight@.len() == self.out_channels * self.in_channels * self.kernel
        &&& self.bias matches Some(bias) ==> bias@.len() == self.out_channels
        &&& 0 < self.stride <= self.kernel
    }

    /// The bias, where there is one.
    pub open spec fn bias_view(&self) -> Option<Seq<S>> {
        match self.bias {
            Some(bias) => Some(bias@),
            None => None,
        }
    }

    /// Output frames: every started stride gives one.
    pub open spec fn frames_out(&self, frames: int) -> int {
        ceil_div(frames, self.stride as int)
    }

    /// The unfolded input of output frame `t`, channel by channel, the oldest tap first.
    pub open spec fn column<A: Arithmetic<Scalar = S>>(&self, x: Seq<Seq<S>>, t: int) -> Seq<S> {
        Seq::new(
            self.in_channels as nat,
            |c: int|
                Seq::new(
                    self.kernel as nat,
                    |tap: int|
                        edge_value::<A>(
                            x,
                            self.pad_mode,
                            t * self.stride + tap - (self.kernel - self.stride),
                            c,
                        ),
                ),
        ).flatten()
    }

    /// The convolution.
    pub open spec fn applied<A: Arithmetic<Scalar = S>>(&self, x: Seq<Seq<S>>) -> Seq<Seq<S>> {
        Seq::new(
            self.frames_out(x.len() as int) as nat,
            |t: int|
                kernels::linear_of::<A>(
                    Reduction::SeededConvolution,
                    self.column::<A>(x, t),
                    self.weight@,
                    self.bias_view(),
                    self.out_channels as int,
                ),
        )
    }

    /// How many frames come out. A last frame that is only begun is filled up.
    pub fn output_frames(&self, frames: usize) -> (out: usize)
        requires
            0 < self.stride <= self.kernel,
            self.stride <= frames,
            frames + self.kernel <= usize::MAX,
        ensures
            out == self.frames_out(frames as int),
            0 < out <= frames,
    {
        let before: usize = self.kernel - self.stride;
        let rest: usize = frames + before - self.kernel;
        let whole: usize = rest / self.stride;
        let begun: usize = if rest % self.stride == 0 {
            0
        } else {
            1
        };
        proof {
            let s = self.stride as int;
            let r = rest as int;
            vstd::arithmetic::div_mod::lemma_fundamental_div_mod(r, s);
            vstd::arithmetic::div_mod::lemma_mod_bound(r, s);
            let m = r % s;
            let n = frames + s - 1;
            let want = if m == 0 {
                s - 1
            } else {
                m - 1
            };
            assert(n == (whole + begun + 1) * s + want) by (nonlinear_arith)
                requires
                    n == r + 2 * s - 1,
                    r == s * whole + m,
                    m == 0 ==> begun == 0 && want == s - 1,
                    m != 0 ==> begun == 1 && want == m - 1,
            ;
            vstd::arithmetic::div_mod::lemma_fundamental_div_mod_converse(
                n,
                s,
                whole + begun + 1,
                want,
            );
            assert(whole + begun <= r) by (nonlinear_arith)
                requires
                    r == s * whole + m,
                    s >= 1,
                    whole >= 0,
                    m == 0 ==> begun == 0,
                    m != 0 ==> begun == 1 && m >= 1,
                    m >= 0,
            ;
        }
        whole + begun + 1
    }

    /// The unfolded input of one output frame.
    fn unfold<A: Arithmetic<Scalar = S>>(&self, x: &Vec<Vec<S>>, t: usize) -> (out: Vec<S>)
        requires
            self.fits(),
            x@.len() > 0,
            rows::uniform(rows::deep(x@), self.in_channels as int),
            t * self.stride + self.kernel <= usize::MAX,
        ensures
            out@.len() == self.in_channels * self.kernel,
            arith::pure::<A>() ==> out@ == self.column::<A>(rows::deep(x@), t as int),
    {
        let frames: usize = x.len();
        let before: usize = self.kernel - self.stride;
        let zero = constant::<A>(Constant::Zero);
        let ghost all = rows::deep(x@);
        proof {
            assert(0 <= t * self.stride) by (nonlinear_arith);
        }
        let start: usize = t * self.stride;
        let mut blocks: Vec<Vec<S>> = Vec::new();
        for c in 0..self.in_channels
            invariant
                self.fits(),
                frames == x@.len(),
                frames > 0,
                all == rows::deep(x@),
                rows::uniform(all, self.in_channels as int),
                before == self.kernel - self.stride,
                start == t * self.stride,
                start + self.kernel <= usize::MAX,
                arith::pure::<A>() ==> zero == arith::cst::<A>(Constant::Zero),
                blocks@.len() == c,
                forall|j: int| 0 <= j < c ==> (#[trigger] blocks@[j])@.len() == self.kernel,
                arith::pure::<A>() ==> forall|j: int, tap: int|
                    0 <= j < c && 0 <= tap < self.kernel ==> #[trigger] blocks@[j]@[tap]
                        == edge_value::<A>(all, self.pad_mode, start + tap - before, j),
        {
            let mut block: Vec<S> = Vec::new();
            for tap in 0..self.kernel
                invariant
                    c < self.in_channels,
                    self.fits(),
                    frames == x@.len(),
                    frames > 0,
                    all == rows::deep(x@),
                    rows::uniform(all, self.in_channels as int),
                    before == self.kernel - self.stride,
                    start + self.kernel <= usize::MAX,
                    arith::pure::<A>() ==> zero == arith::cst::<A>(Constant::Zero),
                    block@.len() == tap,
                    arith::pure::<A>() ==> forall|j: int|
                        0 <= j < tap ==> #[trigger] block@[j] == edge_value::<A>(
                            all,
                            self.pad_mode,
                            start + j - before,
                            c as int,
                        ),
            {
                let at: usize = start + tap;
                proof {
                    assert(all[0].len() == self.in_channels);
                    assert(all[frames - 1].len() == self.in_channels);
                }
                let inside = at >= before && at - before < frames;
                let value = if inside {
                    proof {
                        assert(all[at - before].len() == self.in_channels);
                    }
                    x[at - before][c]
                } else {
                    match self.pad_mode {
                        PadMode::Constant => zero,
                        PadMode::Replicate => if at < before {
                            x[0][c]
                        } else {
                            x[frames - 1][c]
                        },
                    }
                };
                block.push(value);
            }
            blocks.push(block);
        }
        proof {
            assert forall|j: int| 0 <= j < rows::deep(blocks@).len() implies (
            #[trigger] rows::deep(blocks@)[j]).len() == self.kernel by {
                assert(blocks@[j]@.len() == self.kernel);
            }
            rows::lemma_flatten_len(rows::deep(blocks@), self.kernel as int);
            if arith::pure::<A>() {
                let want = Seq::new(
                    self.in_channels as nat,
                    |c: int|
                        Seq::new(
                            self.kernel as nat,
                            |tap: int|
                                edge_value::<A>(
                                    all,
                                    self.pad_mode,
                                    t * self.stride + tap - (self.kernel - self.stride),
                                    c,
                                ),
                        ),
                );
                assert forall|j: int| 0 <= j < want.len() implies rows::deep(blocks@)[j]
                    == #[trigger] want[j] by {
                    assert(blocks@[j]@.len() == self.kernel);
                    assert(rows::deep(blocks@)[j] =~= want[j]);
                }
                assert(rows::deep(blocks@) =~= want);
            }
        }
        join_rows(&blocks)
    }

    /// The convolution over rows.
    pub fn forward_rows<A: Arithmetic<Scalar = S>>(&self, x: &Vec<Vec<S>>) -> (out: Vec<Vec<S>>)
        requires
            self.fits(),
            rows::uniform(rows::deep(x@), self.in_channels as int),
            self.stride <= x@.len(),
            x@.len() + self.kernel + self.stride <= usize::MAX,
        ensures
            out@.len() == self.frames_out(x@.len() as int),
            rows::uniform(rows::deep(out@), self.out_channels as int),
            arith::pure::<A>() ==> rows::deep(out@) == self.applied::<A>(rows::deep(x@)),
    {
        let frames: usize = x.len();
        let count: usize = self.output_frames(frames);
        let bias = match &self.bias {
            Some(bias) => Some(bias.as_slice()),
            None => None,
        };
        let mut out: Vec<Vec<S>> = Vec::new();
        for t in 0..count
            invariant
                self.fits(),
                kernels::opt_view(bias) == self.bias_view(),
                bias matches Some(values) ==> values@.len() == self.out_channels,
                frames == x@.len(),
                frames > 0,
                rows::uniform(rows::deep(x@), self.in_channels as int),
                count == self.frames_out(frames as int),
                frames + self.kernel + self.stride <= usize::MAX,
                out@.len() == t,
                forall|j: int| 0 <= j < t ==> (#[trigger] out@[j])@.len() == self.out_channels,
                arith::pure::<A>() ==> forall|j: int|
                    0 <= j < t ==> (#[trigger] out@[j])@ == self.applied::<A>(rows::deep(x@))[j],
        {
            proof {
                let s = self.stride as int;
                vstd::arithmetic::div_mod::lemma_fundamental_div_mod(frames + s - 1, s);
                vstd::arithmetic::div_mod::lemma_mod_bound(frames + s - 1, s);
                assert(t * s <= frames) by (nonlinear_arith)
                    requires
                        t < count,
                        frames + s - 1 == s * count + (frames + s - 1) % s,
                        0 <= (frames + s - 1) % s,
                        s >= 1,
                ;
                assert(self.out_channels * self.in_channels * self.kernel == self.out_channels * (
                self.in_channels * self.kernel)) by (nonlinear_arith);
            }
            let column = self.unfold::<A>(x, t);
            out.push(
                linear::<A>(
                    Reduction::SeededConvolution,
                    column.as_slice(),
                    self.weight.as_slice(),
                    bias,
                    self.out_channels,
                ),
            );
        }
        proof {
            assert forall|j: int| 0 <= j < rows::deep(out@).len() implies (
            #[trigger] rows::deep(out@)[j]).len() == self.out_channels by {
                assert(out@[j]@.len() == self.out_channels);
            }
            if arith::pure::<A>() {
                assert(rows::deep(out@) =~= self.applied::<A>(rows::deep(x@)));
            }
        }
        out
    }

    /// The convolution over frames laid end to end.
    pub fn forward<A: Arithmetic<Scalar = S>>(&self, input: &[S], frames: usize) -> (out: Vec<S>)
        requires
            self.fits(),
            input@.len() == frames * self.in_channels,
            self.stride <= frames,
            frames + self.kernel + self.stride <= usize::MAX,
        ensures
            out@.len() == self.frames_out(frames as int) * self.out_channels,
            arith::pure::<A>() ==> out@ == self.applied::<A>(
                rows::unstack(input@, frames as int, self.in_channels as int),
            ).flatten(),
    {
        let x = split_rows(input, frames, self.in_channels);
        proof {
            assert(rows::deep(x@).len() == frames);
        }
        let out = self.forward_rows::<A>(&x);
        proof {
            rows::lemma_flatten_len(rows::deep(out@), self.out_channels as int);
        }
        join_rows(&out)
    }
}

/// ELU: the value itself above zero, else its exponential less one.
pub open spec fn elu_of<A: Arithmetic>(x: A::Scalar) -> A::Scalar {
    if arith::rel::<A>(Relation::AtMost, x, arith::cst::<A>(Constant::Zero)) {
        arith::un::<A>(Unary::ExpMinusOne, x)
    } else {
        x
    }
}

/// ELU of every value.
pub open spec fn elu_row<A: Arithmetic>(x: Seq<A::Scalar>) -> Seq<A::Scalar> {
    Seq::new(x.len(), |i: int| elu_of::<A>(x[i]))
}

/// ELU of every value of every row.
pub open spec fn elu_rows<A: Arithmetic>(x: Seq<Seq<A::Scalar>>) -> Seq<Seq<A::Scalar>> {
    Seq::new(x.len(), |t: int| elu_row::<A>(x[t]))
}

/// ELU of every value.
fn elu_each<A: Arithmetic>(x: &[A::Scalar]) -> (out: Vec<A::Scalar>)
    ensures
        out@.len() == x@.len(),
        arith::pure::<A>() ==> out@ == elu_row::<A>(x@),
{
    let zero = constant::<A>(Constant::Zero);
    let mut out: Vec<A::Scalar> = Vec::new();
    for i in 0..x.len()
        invariant
            arith::pure::<A>() ==> zero == arith::cst::<A>(Constant::Zero),
            out@.len() == i,
            arith::pure::<A>() ==> forall|j: int|
                0 <= j < i ==> #[trigger] out@[j] == elu_of::<A>(x@[j]),
    {
        out.push(
            if relation::<A>(Relation::AtMost, x[i], zero) {
                unary::<A>(Unary::ExpMinusOne, x[i])
            } else {
                x[i]
            },
        );
    }
    proof {
        if arith::pure::<A>() {
            assert(out@ =~= elu_row::<A>(x@));
        }
    }
    out
}

/// ELU of every value.
pub fn elu_in_place<A: Arithmetic>(values: &mut [A::Scalar])
    ensures
        final(values)@.len() == old(values)@.len(),
        arith::pure::<A>() ==> final(values)@ == elu_row::<A>(old(values)@),
{
    let out = elu_each::<A>(values);
    store(values, out.as_slice());
}

/// ELU over rows.
pub fn elu_all<A: Arithmetic>(x: &Vec<Vec<A::Scalar>>, width: usize) -> (out: Vec<Vec<A::Scalar>>)
    requires
        rows::uniform(rows::deep(x@), width as int),
    ensures
        out@.len() == x@.len(),
        rows::uniform(rows::deep(out@), width as int),
        arith::pure::<A>() ==> rows::deep(out@) == elu_rows::<A>(rows::deep(x@)),
{
    let mut out: Vec<Vec<A::Scalar>> = Vec::new();
    for t in 0..x.len()
        invariant
            rows::uniform(rows::deep(x@), width as int),
            out@.len() == t,
            forall|j: int| 0 <= j < t ==> (#[trigger] out@[j])@.len() == width,
            arith::pure::<A>() ==> forall|j: int|
                0 <= j < t ==> (#[trigger] out@[j])@ == elu_row::<A>(x@[j]@),
    {
        proof {
            assert(rows::deep(x@)[t as int].len() == width);
        }
        out.push(elu_each::<A>(x[t].as_slice()));
    }
    proof {
        assert forall|j: int| 0 <= j < rows::deep(out@).len() implies (
        #[trigger] rows::deep(out@)[j]).len() == width by {
            assert(out@[j]@.len() == width);
        }
        if arith::pure::<A>() {
            assert(rows::deep(out@) =~= elu_rows::<A>(rows::deep(x@)));
        }
    }
    out
}

/// A residual unit: two activated convolutions beside the identity.
#[derive(Clone, Copy, Debug)]
pub struct ResidualUnit<'a, S> {
    /// The convolution with three taps.
    pub conv_a: &'a EncoderConv<S>,
    /// The convolution with one.
    pub conv_b: &'a EncoderConv<S>,
}

impl<'a, S: Copy> ResidualUnit<'a, S> {
    /// That both convolutions keep the length and fit each other.
    pub open spec fn fits(&self, channels: int) -> bool {
        &&& self.conv_a.fits()
        &&& self.conv_b.fits()
        &&& self.conv_a.stride == 1
        &&& self.conv_b.stride == 1
        &&& self.conv_a.in_channels == channels
        &&& self.conv_b.in_channels == self.conv_a.out_channels
        &&& self.conv_b.out_channels == channels
    }

    /// The unit: what it reads plus its branch.
    pub open spec fn applied<A: Arithmetic<Scalar = S>>(&self, x: Seq<Seq<S>>) -> Seq<Seq<S>> {
        let inner = self.conv_a.applied::<A>(elu_rows::<A>(x));
        let branch = self.conv_b.applied::<A>(elu_rows::<A>(inner));
        Seq::new(x.len(), |t: int| kernels::zip::<A>(Binary::Add, x[t], branch[t]))
    }

    /// The unit over rows.
    pub fn forward_rows<A: Arithmetic<Scalar = S>>(&self, x: &Vec<Vec<S>>) -> (out: Vec<Vec<S>>)
        requires
            self.fits(self.conv_a.in_channels as int),
            rows::uniform(rows::deep(x@), self.conv_a.in_channels as int),
            0 < x@.len(),
            x@.len() + self.conv_a.kernel + 1 <= usize::MAX,
            x@.len() + self.conv_b.kernel + 1 <= usize::MAX,
        ensures
            out@.len() == x@.len(),
            rows::uniform(rows::deep(out@), self.conv_a.in_channels as int),
            arith::pure::<A>() ==> rows::deep(out@) == self.applied::<A>(rows::deep(x@)),
    {
        let channels: usize = self.conv_a.in_channels;
        let activated = elu_all::<A>(x, channels);
        let inner = self.conv_a.forward_rows::<A>(&activated);
        let again = elu_all::<A>(&inner, self.conv_a.out_channels);
        let branch = self.conv_b.forward_rows::<A>(&again);
        let mut out: Vec<Vec<S>> = Vec::new();
        for t in 0..x.len()
            invariant
                x@.len() == branch@.len(),
                rows::uniform(rows::deep(x@), channels as int),
                rows::uniform(rows::deep(branch@), channels as int),
                out@.len() == t,
                forall|j: int| 0 <= j < t ==> (#[trigger] out@[j])@.len() == channels,
                arith::pure::<A>() ==> forall|j: int|
                    0 <= j < t ==> (#[trigger] out@[j])@ == kernels::zip::<A>(
                        Binary::Add,
                        x@[j]@,
                        branch@[j]@,
                    ),
        {
            proof {
                assert(rows::deep(x@)[t as int].len() == channels);
                assert(rows::deep(branch@)[t as int].len() == channels);
            }
            out.push(zip_with::<A>(Binary::Add, x[t].as_slice(), branch[t].as_slice()));
        }
        proof {
            assert forall|j: int| 0 <= j < rows::deep(out@).len() implies (
            #[trigger] rows::deep(out@)[j]).len() == channels by {
                assert(out@[j]@.len() == channels);
            }
            if arith::pure::<A>() {
                assert(rows::deep(out@) =~= self.applied::<A>(rows::deep(x@)));
            }
        }
        out
    }
}

} // verus!
