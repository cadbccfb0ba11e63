//! The encoder itself: one convolution, three SE-Res2Net blocks, aggregation and attentive
//! statistics pooling.
use vstd::prelude::*;
use vstd::slice::{slice_subrange, slice_to_vec};
use vstd::string::StringExecFns;
use crate::arith;
use crate::arith::{binary, constant, count, unary, Arithmetic, Binary, Constant, Unary};
use crate::checkpoint;
use crate::checkpoint::{widen_exact, CheckpointError};
use crate::kernels;
use crate::kernels::{map_each, zip_with};
use crate::rows;
use crate::rows::{append_row, fill, join_rows, split_rows};
use crate::speaker::conv;
use crate::speaker::conv::Conv;
use crate::speaker::MEL_DIM;
use crate::tensor_file::TensorFile;
use crate::text;
use crate::text::{join, join_number, numbered};

verus! {

/// The geometry of one convolution.
#[derive(Clone, Copy, Debug, PartialEq, Eq, Structural)]
pub struct ConvShape {
    /// Channels read.
    pub input: usize,
    /// Channels written.
    pub output: usize,
    /// Taps.
    pub kernel: usize,
    /// Frames between taps.
    pub dilation: usize,
}

/// Convolutions of the encoder: eleven per block, then five.
pub const CONV_COUNT: usize = 38;

/// The geometry of convolution `i`.
pub open spec fn shape_of(i: int) -> ConvShape {
    if i < 33 {
        let j = i % 11;
        if j < 7 {
            ConvShape { input: 64, output: 64, kernel: 3, dilation: (i / 11 + 2) as usize }
        } else if j < 9 {
            ConvShape { input: 512, output: 512, kernel: 1, dilation: 1 }
        } else if j == 9 {
            ConvShape { input: 512, output: 128, kernel: 1, dilation: 1 }
        } else {
            ConvShape { input: 128, output: 512, kernel: 1, dilation: 1 }
        }
    } else if i == 33 {
        ConvShape { input: 128, output: 512, kernel: 5, dilation: 1 }
    } else if i == 34 {
        ConvShape { input: 1_536, output: 1_536, kernel: 1, dilation: 1 }
    } else if i == 35 {
        ConvShape { input: 4_608, output: 128, kernel: 1, dilation: 1 }
    } else if i == 36 {
        ConvShape { input: 128, output: 1_536, kernel: 1, dilation: 1 }
    } else {
        ConvShape { input: 3_072, output: 1_024, kernel: 1, dilation: 1 }
    }
}

/// The geometry of convolution `i`.
fn conv_shape(i: usize) -> (shape: ConvShape)
    requires
        i < CONV_COUNT,
    ensures
        shape == shape_of(i as int),
{
    if i < 33 {
        let j: usize = i % 11;
        if j < 7 {
            ConvShape { input: 64, output: 64, kernel: 3, dilation: i / 11 + 2 }
        } else if j < 9 {
            ConvShape { input: 512, output: 512, kernel: 1, dilation: 1 }
        } else if j == 9 {
            ConvShape { input: 512, output: 128, kernel: 1, dilation: 1 }
        } else {
            ConvShape { input: 128, output: 512, kernel: 1, dilation: 1 }
        }
    } else if i == 33 {
        ConvShape { input: 128, output: 512, kernel: 5, dilation: 1 }
    } else if i == 34 {
        ConvShape { input: 1_536, output: 1_536, kernel: 1, dilation: 1 }
    } else if i == 35 {
        ConvShape { input: 4_608, output: 128, kernel: 1, dilation: 1 }
    } else if i == 36 {
        ConvShape { input: 128, output: 1_536, kernel: 1, dilation: 1 }
    } else {
        ConvShape { input: 3_072, output: 1_024, kernel: 1, dilation: 1 }
    }
}

/// Where convolution `i` stands in a checkpoint.
pub open spec fn base_of(i: int) -> Seq<char> {
    if i < 33 {
        let block = "speaker_encoder.blocks."@ + text::decimal_of((i / 11 + 1) as nat);
        let j = i % 11;
        if j < 7 {
            block + (".res2net_block.blocks."@ + text::decimal_of(j as nat) + ".conv"@)
        } else if j == 7 {
            block + ".tdnn1.conv"@
        } else if j == 8 {
            block + ".tdnn2.conv"@
        } else if j == 9 {
            block + ".se_block.conv1"@
        } else {
            block + ".se_block.conv2"@
        }
    } else if i == 33 {
        "speaker_encoder.blocks.0.conv"@
    } else if i == 34 {
        "speaker_encoder.mfa.conv"@
    } else if i == 35 {
        "speaker_encoder.asp.tdnn.conv"@
    } else if i == 36 {
        "speaker_encoder.asp.conv"@
    } else {
        "speaker_encoder.fc"@
    }
}

/// Where convolution `i` stands in a checkpoint.
fn conv_base(i: usize) -> (base: String)
    requires
        i < CONV_COUNT,
    ensures
        base@ == base_of(i as int),
{
    if i < 33 {
        let block = numbered("speaker_encoder.blocks.", i / 11 + 1);
        let j: usize = i % 11;
        if j < 7 {
            let branch = join_number(".res2net_block.blocks.", j, ".conv");
            join(block.as_str(), branch.as_str())
        } else if j == 7 {
            join(block.as_str(), ".tdnn1.conv")
        } else if j == 8 {
            join(block.as_str(), ".tdnn2.conv")
        } else if j == 9 {
            join(block.as_str(), ".se_block.conv1")
        } else {
            join(block.as_str(), ".se_block.conv2")
        }
    } else if i == 33 {
        String::from_str("speaker_encoder.blocks.0.conv")
    } else if i == 34 {
        String::from_str("speaker_encoder.mfa.conv")
    } else if i == 35 {
        String::from_str("speaker_encoder.asp.tdnn.conv")
    } else if i == 36 {
        String::from_str("speaker_encoder.asp.conv")
    } else {
        String::from_str("speaker_encoder.fc")
    }
}

/// The name of tensor `i`: the weight of a convolution, then its bias.
pub open spec fn name_of(i: int) -> Seq<char> {
    if i % 2 == 0 {
        base_of(i / 2) + ".weight"@
    } else {
        base_of(i / 2) + ".bias"@
    }
}

/// The length of tensor `i`.
pub open spec fn len_of(i: int) -> int {
    let shape = shape_of(i / 2);
    if i % 2 == 0 {
        shape.output * shape.input * shape.kernel
    } else {
        shape.output as int
    }
}

/// A weighted sum over the first `n` frames of one channel.
pub open spec fn weighted_mean<A: Arithmetic>(
    x: Seq<Seq<A::Scalar>>,
    w: Seq<Seq<A::Scalar>>,
    c: int,
    n: int,
) -> A::Scalar
    decreases n,
{
    if n <= 0 {
        arith::cst::<A>(Constant::Zero)
    } else {
        arith::bin::<A>(
            Binary::Add,
            weighted_mean::<A>(x, w, c, n - 1),
            arith::bin::<A>(Binary::Mul, w[n - 1][c], x[n - 1][c]),
        )
    }
}

/// The weighted squares of the first `n` frames of one channel around a mean.
pub open spec fn weighted_squares<A: Arithmetic>(
    x: Seq<Seq<A::Scalar>>,
    w: Seq<Seq<A::Scalar>>,
    mean: A::Scalar,
    c: int,
    n: int,
) -> A::Scalar
    decreases n,
{
    if n <= 0 {
        arith::cst::<A>(Constant::Zero)
    } else {
        let centered = arith::bin::<A>(Binary::Sub, x[n - 1][c], mean);
        arith::bin::<A>(
            Binary::Add,
            weighted_squares::<A>(x, w, mean, c, n - 1),
            arith::bin::<A>(
                Binary::Mul,
                arith::bin::<A>(Binary::Mul, w[n - 1][c], centered),
                centered,
            ),
        )
    }
}

/// The weighted mean of every channel.
pub open spec fn means_of<A: Arithmetic>(
    x: Seq<Seq<A::Scalar>>,
    w: Seq<Seq<A::Scalar>>,
    channels: int,
) -> Seq<A::Scalar> {
    Seq::new(channels as nat, |c: int| weighted_mean::<A>(x, w, c, x.len() as int))
}

/// The weighted deviation of every channel: the variance is floored, then its root taken.
pub open spec fn deviations_of<A: Arithmetic>(
    x: Seq<Seq<A::Scalar>>,
    w: Seq<Seq<A::Scalar>>,
    channels: int,
) -> Seq<A::Scalar> {
    Seq::new(
        channels as nat,
        |c: int|
            arith::un::<A>(
                Unary::Sqrt,
                arith::bin::<A>(
                    Binary::Max,
                    weighted_squares::<A>(
                        x,
                        w,
                        weighted_mean::<A>(x, w, c, x.len() as int),
                        c,
                        x.len() as int,
                    ),
                    arith::cst::<A>(Constant::PoolingEpsilon),
                ),
            ),
    )
}

/// That a weight function takes every slot, and answers with the values of `w` only.
pub open spec fn answers<S, F: Fn(usize) -> S>(weight: F, w: Seq<S>) -> bool {
    forall|slot: usize, r: S|
        slot < w.len() && #[trigger] call_ensures(weight, (slot,), r) ==> r == w[slot as int]
}

/// Weighted mean and deviation of every channel. The weights are asked for by the slot of the
/// value they weigh.
pub fn statistics<A: Arithmetic, F: Fn(usize) -> A::Scalar>(
    hidden: &[A::Scalar],
    frames: usize,
    channels: usize,
    mean: &mut [A::Scalar],
    deviation: &mut [A::Scalar],
    weight: F,
)
    requires
        hidden@.len() == frames * channels,
        old(mean)@.len() == channels,
        old(deviation)@.len() == channels,
        forall|slot: usize| slot < hidden@.len() ==> #[trigger] call_requires(weight, (slot,)),
    ensures
        final(mean)@.len() == channels,
        final(deviation)@.len() == channels,
        arith::pure::<A>() ==> forall|w: Seq<A::Scalar>|
            w.len() == hidden@.len() && #[trigger] answers(weight, w) ==> {
                let x = rows::unstack(hidden@, frames as int, channels as int);
                let y = rows::unstack(w, frames as int, channels as int);
                &&& final(mean)@ == means_of::<A>(x, y, channels as int)
                &&& final(deviation)@ == deviations_of::<A>(x, y, channels as int)
            },
{
    let zero = constant::<A>(Constant::Zero);
    let epsilon = constant::<A>(Constant::PoolingEpsilon);
    let ghost x = rows::unstack(hidden@, frames as int, channels as int);
    for c in 0..channels
        invariant
            hidden@.len() == frames * channels,
            mean@.len() == channels,
            deviation@.len() == channels,
            x == rows::unstack(hidden@, frames as int, channels as int),
            forall|slot: usize| slot < hidden@.len() ==> #[trigger] call_requires(weight, (slot,)),
            arith::pure::<A>() ==> zero == arith::cst::<A>(Constant::Zero),
            arith::pure::<A>() ==> epsilon == arith::cst::<A>(Constant::PoolingEpsilon),
            arith::pure::<A>() ==> forall|w: Seq<A::Scalar>|
                w.len() == hidden@.len() && #[trigger] answers(weight, w) ==> {
                    let y = rows::unstack(w, frames as int, channels as int);
                    &&& forall|j: int|
                        0 <= j < c ==> #[trigger] mean@[j] == means_of::<A>(
                            x,
                            y,
                            channels as int,
                        )[j]
                    &&& forall|j: int|
                        0 <= j < c ==> #[trigger] deviation@[j] == deviations_of::<A>(
                            x,
                            y,
                            channels as int,
                        )[j]
                },
    {
        let ghost means = mean@;
        let ghost deviations = deviation@;
        let center = channel_mean::<A, F>(hidden, frames, channels, c, &weight);
        let squares = channel_squares::<A, F>(hidden, frames, channels, c, center, &weight);
        mean[c] = center;
        deviation[c] = unary::<A>(Unary::Sqrt, binary::<A>(Binary::Max, squares, epsilon));
        proof {
            assert forall|j: int| 0 <= j < c implies mean@[j] == means[j] by {}
            assert forall|j: int| 0 <= j < c implies deviation@[j] == deviations[j] by {}
            if arith::pure::<A>() {
                assert forall|w: Seq<A::Scalar>|
                    w.len() == hidden@.len() && #[trigger] answers(weight, w) implies {
                    let y = rows::unstack(w, frames as int, channels as int);
                    &&& forall|j: int|
                        0 <= j < c + 1 ==> #[trigger] mean@[j] == means_of::<A>(
                            x,
                            y,
                            channels as int,
                        )[j]
                    &&& forall|j: int|
                        0 <= j < c + 1 ==> #[trigger] deviation@[j] == deviations_of::<A>(
                            x,
                            y,
                            channels as int,
                        )[j]
                } by {
                    assert(x.len() == frames);
                }
            }
        }
    }
    proof {
        if arith::pure::<A>() {
            assert forall|w: Seq<A::Scalar>|
                w.len() == hidden@.len() && #[trigger] answers(weight, w) implies {
                let y = rows::unstack(w, frames as int, channels as int);
                &&& mean@ == means_of::<A>(x, y, channels as int)
                &&& deviation@ == deviations_of::<A>(x, y, channels as int)
            } by {
                let y = rows::unstack(w, frames as int, channels as int);
                assert(mean@ =~= means_of::<A>(x, y, channels as int));
                assert(deviation@ =~= deviations_of::<A>(x, y, channels as int));
            }
        }
    }
}

/// The weighted mean of one channel.
fn channel_mean<A: Arithmetic, F: Fn(usize) -> A::Scalar>(
    hidden: &[A::Scalar],
    frames: usize,
    channels: usize,
    c: usize,
    weight: &F,
) -> (mean: A::Scalar)
    requires
        hidden@.len() == frames * channels,
        c < channels,
        forall|slot: usize| slot < hidden@.len() ==> #[trigger] call_requires(*weight, (slot,)),
    ensures
        arith::pure::<A>() ==> forall|w: Seq<A::Scalar>|
            w.len() == hidden@.len() && #[trigger] answers(*weight, w) ==> mean == weighted_mean::<
                A,
            >(
                rows::unstack(hidden@, frames as int, channels as int),
                rows::unstack(w, frames as int, channels as int),
                c as int,
                frames as int,
            ),
{
    let total: usize = hidden.len();
    let mut mean = constant::<A>(Constant::Zero);
    for t in 0..frames
        invariant
            total == hidden@.len(),
            total == frames * channels,
            c < channels,
            forall|slot: usize| slot < hidden@.len() ==> #[trigger] call_requires(
                *weight,
                (slot,),
            ),
            arith::pure::<A>() ==> forall|w: Seq<A::Scalar>|
                w.len() == hidden@.len() && #[trigger] answers(*weight, w) ==> mean
                    == weighted_mean::<A>(
                    rows::unstack(hidden@, frames as int, channels as int),
                    rows::unstack(w, frames as int, channels as int),
                    c as int,
                    t as int,
                ),
    {
        proof {
            rows::lemma_row_bounds(t as int, frames as int, channels as int);
        }
        let slot: usize = t * channels + c;
        let factor = weight(slot);
        mean = binary::<A>(Binary::Add, mean, binary::<A>(Binary::Mul, factor, hidden[slot]));
    }
    mean
}

/// The weighted squares of one channel around its mean.
fn channel_squares<A: Arithmetic, F: Fn(usize) -> A::Scalar>(
    hidden: &[A::Scalar],
    frames: usize,
    channels: usize,
    c: usize,
    mean: A::Scalar,
    weight: &F,
) -> (squares: A::Scalar)
    requires
        hidden@.len() == frames * channels,
        c < channels,
        forall|slot: usize| slot < hidden@.len() ==> #[trigger] call_requires(*weight, (slot,)),
    ensures
        arith::pure::<A>() ==> forall|w: Seq<A::Scalar>|
            w.len() == hidden@.len() && #[trigger] answers(*weight, w) ==> squares
                == weighted_squares::<A>(
                rows::unstack(hidden@, frames as int, channels as int),
                rows::unstack(w, frames as int, channels as int),
                mean,
                c as int,
                frames as int,
            ),
{
    let total: usize = hidden.len();
    let mut squares = constant::<A>(Constant::Zero);
    for t in 0..frames
        invariant
            total == hidden@.len(),
            total == frames * channels,
            c < channels,
            forall|slot: usize| slot < hidden@.len() ==> #[trigger] call_requires(
                *weight,
                (slot,),
            ),
            arith::pure::<A>() ==> forall|w: Seq<A::Scalar>|
                w.len() == hidden@.len() && #[trigger] answers(*weight, w) ==> squares
                    == weighted_squares::<A>(
                    rows::unstack(hidden@, frames as int, channels as int),
                    rows::unstack(w, frames as int, channels as int),
                    mean,
                    c as int,
                    t as int,
                ),
    {
        proof {
            rows::lemma_row_bounds(t as int, frames as int, channels as int);
        }
        let slot: usize = t * channels + c;
        let factor = weight(slot);
        let centered = binary::<A>(Binary::Sub, hidden[slot], mean);
        let weighted = binary::<A>(Binary::Mul, factor, centered);
        squares = binary::<A>(Binary::Add, squares, binary::<A>(Binary::Mul, weighted, centered));
    }
    squares
}

/// One channel over time.
pub open spec fn track_of<S>(x: Seq<Seq<S>>, c: int) -> Seq<S> {
    Seq::new(x.len(), |t: int| x[t][c])
}

/// Softmax of one channel over time: every numerator times the reciprocal of their sum.
pub open spec fn time_softmax_of<A: Arithmetic>(track: Seq<A::Scalar>) -> Seq<A::Scalar> {
    let terms = kernels::softmax_terms::<A>(track);
    let inverse = arith::bin::<A>(
        Binary::Div,
        arith::cst::<A>(Constant::One),
        kernels::total::<A>(terms, track.len() as int),
    );
    Seq::new(track.len(), |t: int| arith::bin::<A>(Binary::Mul, terms[t], inverse))
}

/// Softmax over time of every channel on its own.
pub open spec fn softmax_rows_of<A: Arithmetic>(
    x: Seq<Seq<A::Scalar>>,
    channels: int,
) -> Seq<Seq<A::Scalar>> {
    Seq::new(
        x.len(),
        |t: int| Seq::new(channels as nat, |c: int| time_softmax_of::<A>(track_of(x, c))[t]),
    )
}

/// Softmax over time of one channel.
fn time_softmax<A: Arithmetic>(track: &[A::Scalar]) -> (out: Vec<A::Scalar>)
    ensures
        out@.len() == track@.len(),
        arith::pure::<A>() ==> out@ == time_softmax_of::<A>(track@),
{
    let best = kernels::peak_of::<A>(track);
    let mut terms: Vec<A::Scalar> = Vec::new();
    for t in 0..track.len()
        invariant
            arith::pure::<A>() ==> best == kernels::peak::<A>(track@, track@.len() as int),
            terms@.len() == t,
            arith::pure::<A>() ==> forall|j: int|
                0 <= j < t ==> #[trigger] terms@[j] == kernels::softmax_terms::<A>(track@)[j],
    {
        terms.push(unary::<A>(Unary::Exp, binary::<A>(Binary::Sub, track[t], best)));
    }
    proof {
        if arith::pure::<A>() {
            assert(terms@ =~= kernels::softmax_terms::<A>(track@));
        }
    }
    let sum = kernels::sum_of::<A>(terms.as_slice());
    let inverse = binary::<A>(Binary::Div, constant::<A>(Constant::One), sum);
    let mut out: Vec<A::Scalar> = Vec::new();
    for t in 0..terms.len()
        invariant
            terms@.len() == track@.len(),
            arith::pure::<A>() ==> terms@ == kernels::softmax_terms::<A>(track@),
            arith::pure::<A>() ==> inverse == arith::bin::<A>(
                Binary::Div,
                arith::cst::<A>(Constant::One),
                kernels::total::<A>(terms@, track@.len() as int),
            ),
            out@.len() == t,
            arith::pure::<A>() ==> forall|j: int|
                0 <= j < t ==> #[trigger] out@[j] == time_softmax_of::<A>(track@)[j],
    {
        out.push(binary::<A>(Binary::Mul, terms[t], inverse));
    }
    proof {
        if arith::pure::<A>() {
            assert(out@ =~= time_softmax_of::<A>(track@));
        }
    }
    out
}

/// Softmax over time of every channel on its own.
pub fn softmax_over_time<A: Arithmetic>(values: &mut [A::Scalar], frames: usize, channels: usize)
    requires
        old(values)@.len() == frames * channels,
    ensures
        final(values)@.len() == frames * channels,
        arith::pure::<A>() ==> rows::unstack(final(values)@, frames as int, channels as int)
            == softmax_rows_of::<A>(
            rows::unstack(old(values)@, frames as int, channels as int),
            channels as int,
        ),
{
    let x = split_rows(values, frames, channels);
    proof {
        assert(rows::deep(x@).len() == frames);
    }
    let out = softmax_rows::<A>(&x, channels);
    let flat = join_rows(&out);
    proof {
        rows::lemma_flatten_len(rows::deep(out@), channels as int);
        rows::lemma_unstack_flatten(rows::deep(out@), channels as int);
    }
    rows::store(values, flat.as_slice());
}

/// Softmax over time, over rows.
fn softmax_rows<A: Arithmetic>(x: &Vec<Vec<A::Scalar>>, channels: usize) -> (out: Vec<
    Vec<A::Scalar>,
>)
    requires
        rows::uniform(rows::deep(x@), channels as int),
    ensures
        out@.len() == x@.len(),
        rows::uniform(rows::deep(out@), channels as int),
        arith::pure::<A>() ==> rows::deep(out@) == softmax_rows_of::<A>(
            rows::deep(x@),
            channels as int,
        ),
{
    let frames: usize = x.len();
    let ghost all = rows::deep(x@);
    let mut tracks: Vec<Vec<A::Scalar>> = Vec::new();
    for c in 0..channels
        invariant
            frames == x@.len(),
            all == rows::deep(x@),
            rows::uniform(all, channels as int),
            tracks@.len() == c,
            forall|j: int| 0 <= j < c ==> (#[trigger] tracks@[j])@.len() == frames,
            arith::pure::<A>() ==> forall|j: int|
                0 <= j < c ==> (#[trigger] tracks@[j])@ == time_softmax_of::<A>(track_of(all, j)),
    {
        let mut track: Vec<A::Scalar> = Vec::new();
        for t in 0..frames
            invariant
                c < channels,
                frames == x@.len(),
                all == rows::deep(x@),
                rows::uniform(all, channels as int),
                track@.len() == t,
                forall|j: int| 0 <= j < t ==> #[trigger] track@[j] == all[j][c as int],
        {
            proof {
                assert(all[t as int].len() == channels);
            }
            track.push(x[t][c]);
        }
        proof {
            assert(track@ =~= track_of(all, c as int));
        }
        tracks.push(time_softmax::<A>(track.as_slice()));
    }
    let mut out: Vec<Vec<A::Scalar>> = Vec::new();
    for t in 0..frames
        invariant
            frames == x@.len(),
            all == rows::deep(x@),
            tracks@.len() == channels,
            forall|j: int| 0 <= j < channels ==> (#[trigger] tracks@[j])@.len() == frames,
            arith::pure::<A>() ==> forall|j: int|
                0 <= j < channels ==> (#[trigger] tracks@[j])@ == time_softmax_of::<A>(
                    track_of(all, j),
                ),
            out@.len() == t,
            forall|j: int| 0 <= j < t ==> (#[trigger] out@[j])@.len() == channels,
            arith::pure::<A>() ==> forall|j: int|
                0 <= j < t ==> (#[trigger] out@[j])@ == softmax_rows_of::<A>(
                    all,
                    channels as int,
                )[j],
    {
        let mut row: Vec<A::Scalar> = Vec::new();
        for c in 0..channels
            invariant
                t < frames,
                frames == x@.len(),
                all == rows::deep(x@),
                tracks@.len() == channels,
                forall|j: int| 0 <= j < channels ==> (#[trigger] tracks@[j])@.len() == frames,
                arith::pure::<A>() ==> forall|j: int|
                    0 <= j < channels ==> (#[trigger] tracks@[j])@ == time_softmax_of::<A>(
                        track_of(all, j),
                    ),
                row@.len() == c,
                arith::pure::<A>() ==> forall|j: int|
                    0 <= j < c ==> #[trigger] row@[j] == time_softmax_of::<A>(
                        track_of(all, j),
                    )[t as int],
        {
            proof {
                assert(tracks@[c as int]@.len() == frames);
            }
            row.push(tracks[c][t]);
        }
        proof {
            if arith::pure::<A>() {
                assert(row@ =~= softmax_rows_of::<A>(all, channels as int)[t as int]);
            }
        }
        out.push(row);
    }
    proof {
        assert forall|j: int| 0 <= j < rows::deep(out@).len() implies (
        #[trigger] rows::deep(out@)[j]).len() == channels by {
            assert(out@[j]@.len() == channels);
        }
        if arith::pure::<A>() {
            assert(rows::deep(out@) =~= softmax_rows_of::<A>(all, channels as int));
        }
    }
    out
}

/// Channel group `k` of every frame.
pub open spec fn group_of<S>(x: Seq<Seq<S>>, k: int, width: int) -> Seq<Seq<S>> {
    Seq::new(x.len(), |t: int| x[t].subrange(k * width, k * width + width))
}

/// Rows added to rows.
pub open spec fn added_of<A: Arithmetic>(
    x: Seq<Seq<A::Scalar>>,
    y: Seq<Seq<A::Scalar>>,
) -> Seq<Seq<A::Scalar>> {
    Seq::new(x.len(), |t: int| kernels::zip::<A>(Binary::Add, x[t], y[t]))
}

/// What group `k` of a Res2Net chain gives: the first group passes, the second is convolved
/// alone, and every later one after what the group before it gave has been added.
pub open spec fn chain_of<A: Arithmetic>(
    branches: Seq<Conv<A::Scalar>>,
    x: Seq<Seq<A::Scalar>>,
    width: int,
    k: int,
) -> Seq<Seq<A::Scalar>>
    decreases k,
{
    let own = group_of(x, k, width);
    if k <= 0 {
        own
    } else if k == 1 {
        branches[0].activated::<A>(own)
    } else {
        branches[k - 1].activated::<A>(
            added_of::<A>(own, chain_of::<A>(branches, x, width, k - 1)),
        )
    }
}

/// The groups of a Res2Net chain side by side.
pub open spec fn res2net_of<A: Arithmetic>(
    branches: Seq<Conv<A::Scalar>>,
    x: Seq<Seq<A::Scalar>>,
    width: int,
) -> Seq<Seq<A::Scalar>> {
    Seq::new(
        x.len(),
        |t: int| Seq::new(8, |k: int| chain_of::<A>(branches, x, width, k)[t]).flatten(),
    )
}

/// The sum of the first `n` frames.
pub open spec fn frames_sum<A: Arithmetic>(
    x: Seq<Seq<A::Scalar>>,
    channels: int,
    n: int,
) -> Seq<A::Scalar>
    decreases n,
{
    if n <= 0 {
        rows::filled(channels, arith::cst::<A>(Constant::Zero))
    } else {
        kernels::zip::<A>(Binary::Add, frames_sum::<A>(x, channels, n - 1), x[n - 1])
    }
}

/// `1 / n`.
pub open spec fn share_of<A: Arithmetic>(n: int) -> A::Scalar {
    arith::bin::<A>(
        Binary::Div,
        arith::cst::<A>(Constant::One),
        arith::num::<A>(n as usize),
    )
}

/// Every value times one number.
pub open spec fn scaled_of<A: Arithmetic>(x: Seq<A::Scalar>, factor: A::Scalar) -> Seq<A::Scalar> {
    Seq::new(x.len(), |i: int| arith::bin::<A>(Binary::Mul, x[i], factor))
}

/// `1 / (1 + exp(-x))`.
pub open spec fn sigmoid_of<A: Arithmetic>(x: A::Scalar) -> A::Scalar {
    let one = arith::cst::<A>(Constant::One);
    arith::bin::<A>(
        Binary::Div,
        one,
        arith::bin::<A>(
            Binary::Add,
            one,
            arith::un::<A>(Unary::Exp, arith::un::<A>(Unary::Neg, x)),
        ),
    )
}

/// A squeeze-excitation gate: channel means through a bottleneck.
pub open spec fn gate_of<A: Arithmetic>(
    narrow: Conv<A::Scalar>,
    wide: Conv<A::Scalar>,
    x: Seq<Seq<A::Scalar>>,
    channels: int,
) -> Seq<A::Scalar> {
    let n = x.len() as int;
    let pooled = scaled_of::<A>(frames_sum::<A>(x, channels, n), share_of::<A>(n));
    let gate = wide.applied::<A>(narrow.activated::<A>(seq![pooled]))[0];
    Seq::new(gate.len(), |i: int| sigmoid_of::<A>(gate[i]))
}

/// Every frame times a gate.
pub open spec fn gated_of<A: Arithmetic>(
    x: Seq<Seq<A::Scalar>>,
    gate: Seq<A::Scalar>,
) -> Seq<Seq<A::Scalar>> {
    Seq::new(x.len(), |t: int| kernels::zip::<A>(Binary::Mul, x[t], gate))
}

/// Channel group `k` of every frame.
fn group_rows<S: Copy>(x: &Vec<Vec<S>>, k: usize, width: usize) -> (out: Vec<Vec<S>>)
    requires
        forall|t: int|
            0 <= t < x@.len() ==> k * width + width <= (#[trigger] x@[t])@.len(),
    ensures
        out@.len() == x@.len(),
        rows::uniform(rows::deep(out@), width as int),
        rows::deep(out@) == group_of(rows::deep(x@), k as int, width as int),
{
    let mut out: Vec<Vec<S>> = Vec::new();
    for t in 0..x.len()
        invariant
            forall|j: int|
                0 <= j < x@.len() ==> k * width + width <= (#[trigger] x@[j])@.len(),
            out@.len() == t,
            forall|j: int|
                0 <= j < t ==> (#[trigger] out@[j])@ == x@[j]@.subrange(
                    k * width,
                    k * width + width,
                ),
    {
        let row = x[t].as_slice();
        let n: usize = row.len();
        proof {
            assert(0 <= k * width) by (nonlinear_arith);
            assert(k * width + width <= x@[t as int]@.len());
        }
        out.push(slice_to_vec(slice_subrange(row, k * width, k * width + width)));
    }
    proof {
        assert(0 <= k * width) by (nonlinear_arith);
        assert forall|j: int| 0 <= j < rows::deep(out@).len() implies (
        #[trigger] rows::deep(out@)[j]).len() == width by {
            assert(k * width + width <= x@[j]@.len());
            assert(out@[j]@ == x@[j]@.subrange(k * width, k * width + width));
        }
        assert(rows::deep(out@) =~= group_of(rows::deep(x@), k as int, width as int));
    }
    out
}

/// Rows added to rows.
fn add_rows<A: Arithmetic>(x: &Vec<Vec<A::Scalar>>, y: &Vec<Vec<A::Scalar>>, width: usize) -> (out:
    Vec<Vec<A::Scalar>>)
    requires
        x@.len() == y@.len(),
        rows::uniform(rows::deep(x@), width as int),
        rows::uniform(rows::deep(y@), width as int),
    ensures
        out@.len() == x@.len(),
        rows::uniform(rows::deep(out@), width as int),
        arith::pure::<A>() ==> rows::deep(out@) == added_of::<A>(rows::deep(x@), rows::deep(y@)),
{
    let mut out: Vec<Vec<A::Scalar>> = Vec::new();
    for t in 0..x.len()
        invariant
            x@.len() == y@.len(),
            rows::uniform(rows::deep(x@), width as int),
            rows::uniform(rows::deep(y@), width as int),
            out@.len() == t,
            forall|j: int| 0 <= j < t ==> (#[trigger] out@[j])@.len() == width,
            arith::pure::<A>() ==> forall|j: int|
                0 <= j < t ==> (#[trigger] out@[j])@ == kernels::zip::<A>(
                    Binary::Add,
                    x@[j]@,
                    y@[j]@,
                ),
    {
        proof {
            assert(rows::deep(x@)[t as int].len() == width);
            assert(rows::deep(y@)[t as int].len() == width);
        }
        out.push(zip_with::<A>(Binary::Add, x[t].as_slice(), y[t].as_slice()));
    }
    proof {
        if arith::pure::<A>() {
            assert(rows::deep(out@) =~= added_of::<A>(rows::deep(x@), rows::deep(y@)));
        }
    }
    out
}

/// The sum of all frames.
fn sum_frames<A: Arithmetic>(x: &Vec<Vec<A::Scalar>>, channels: usize) -> (sum: Vec<A::Scalar>)
    requires
        rows::uniform(rows::deep(x@), channels as int),
    ensures
        sum@.len() == channels,
        arith::pure::<A>() ==> sum@ == frames_sum::<A>(
            rows::deep(x@),
            channels as int,
            x@.len() as int,
        ),
{
    let mut sum: Vec<A::Scalar> = fill(channels, constant::<A>(Constant::Zero));
    for t in 0..x.len()
        invariant
            rows::uniform(rows::deep(x@), channels as int),
            sum@.len() == channels,
            arith::pure::<A>() ==> sum@ == frames_sum::<A>(
                rows::deep(x@),
                channels as int,
                t as int,
            ),
    {
        proof {
            assert(rows::deep(x@)[t as int].len() == channels);
        }
        sum = zip_with::<A>(Binary::Add, sum.as_slice(), x[t].as_slice());
    }
    sum
}

/// Every value times one number.
fn scale<A: Arithmetic>(x: &[A::Scalar], factor: A::Scalar) -> (out: Vec<A::Scalar>)
    ensures
        out@.len() == x@.len(),
        arith::pure::<A>() ==> out@ == scaled_of::<A>(x@, factor),
{
    let mut out: Vec<A::Scalar> = Vec::new();
    for i in 0..x.len()
        invariant
            out@.len() == i,
            arith::pure::<A>() ==> forall|j: int|
                0 <= j < i ==> #[trigger] out@[j] == arith::bin::<A>(Binary::Mul, x@[j], factor),
    {
        out.push(binary::<A>(Binary::Mul, x[i], factor));
    }
    proof {
        if arith::pure::<A>() {
            assert(out@ =~= scaled_of::<A>(x@, factor));
        }
    }
    out
}

/// The sigmoid of every value.
fn sigmoid_each<A: Arithmetic>(x: &[A::Scalar]) -> (out: Vec<A::Scalar>)
    ensures
        out@.len() == x@.len(),
        arith::pure::<A>() ==> out@ == Seq::new(x@.len(), |i: int| sigmoid_of::<A>(x@[i])),
{
    let one = constant::<A>(Constant::One);
    let mut out: Vec<A::Scalar> = Vec::new();
    for i in 0..x.len()
        invariant
            arith::pure::<A>() ==> one == arith::cst::<A>(Constant::One),
            out@.len() == i,
            arith::pure::<A>() ==> forall|j: int|
                0 <= j < i ==> #[trigger] out@[j] == sigmoid_of::<A>(x@[j]),
    {
        let power = unary::<A>(Unary::Exp, unary::<A>(Unary::Neg, x[i]));
        out.push(binary::<A>(Binary::Div, one, binary::<A>(Binary::Add, one, power)));
    }
    proof {
        if arith::pure::<A>() {
            assert(out@ =~= Seq::new(x@.len(), |i: int| sigmoid_of::<A>(x@[i])));
        }
    }
    out
}

/// `1 / n`.
fn share<A: Arithmetic>(n: usize) -> (r: A::Scalar)
    ensures
        arith::pure::<A>() ==> r == share_of::<A>(n as int),
{
    binary::<A>(Binary::Div, constant::<A>(Constant::One), count::<A>(n))
}

/// One row as a sequence of one frame.
fn single<S>(row: Vec<S>) -> (rows: Vec<Vec<S>>)
    ensures
        rows::deep(rows@) == seq![row@],
        rows@.len() == 1,
{
    let mut rows: Vec<Vec<S>> = Vec::new();
    rows.push(row);
    proof {
        assert(rows::deep(rows@) =~= seq![row@]);
    }
    rows
}

/// The only frame of a sequence of one.
fn only<S: Copy>(x: &Vec<Vec<S>>) -> (row: Vec<S>)
    requires
        x@.len() == 1,
    ensures
        row@ == rows::deep(x@)[0],
{
    slice_to_vec(x[0].as_slice())
}

/// The speaker encoder.
pub struct Encoder<A: Arithmetic> {
    path: String,
    convs: Vec<Conv<A::Scalar>>,
}

impl<A: Arithmetic> Encoder<A> {
    /// Where the encoder was read from.
    pub closed spec fn label(&self) -> Seq<char> {
        self.path@
    }

    /// Convolution `i`.
    pub closed spec fn conv(&self, i: int) -> Conv<A::Scalar> {
        self.convs@[i]
    }

    /// That every convolution has its geometry.
    pub closed spec fn wf(&self) -> bool {
        &&& self.convs@.len() == CONV_COUNT
        &&& forall|i: int|
            0 <= i < CONV_COUNT ==> {
                &&& (#[trigger] self.convs@[i]).fits()
                &&& self.convs@[i].in_channels == shape_of(i).input
                &&& self.convs@[i].out_channels == shape_of(i).output
                &&& self.convs@[i].kernel == shape_of(i).kernel
                &&& self.convs@[i].dilation == shape_of(i).dilation
            }
    }

    /// The convolutions of an encoder have their shapes.
    pub proof fn lemma_parts(&self)
        requires
            self.wf(),
        ensures
            forall|i: int|
                0 <= i < CONV_COUNT ==> {
                    &&& (#[trigger] self.conv(i)).fits()
                    &&& self.conv(i).in_channels == shape_of(i).input
                    &&& self.conv(i).out_channels == shape_of(i).output
                    &&& self.conv(i).kernel == shape_of(i).kernel
                    &&& self.conv(i).dilation == shape_of(i).dilation
                },
    {
    }

    /// The branches of block `b`.
    pub open spec fn branches(&self, b: int) -> Seq<Conv<A::Scalar>> {
        Seq::new(7, |k: int| self.conv(11 * b + k))
    }

    /// The first block.
    pub open spec fn initial_of(&self, mel: Seq<Seq<A::Scalar>>) -> Seq<Seq<A::Scalar>> {
        self.conv(33).activated::<A>(mel)
    }

    /// SE-Res2Net block `b`, counted from zero.
    pub open spec fn block_of(&self, b: int, x: Seq<Seq<A::Scalar>>) -> Seq<Seq<A::Scalar>> {
        let first = self.conv(11 * b + 7).activated::<A>(x);
        let chained = res2net_of::<A>(self.branches(b), first, 64);
        let second = self.conv(11 * b + 8).activated::<A>(chained);
        let gate = gate_of::<A>(self.conv(11 * b + 9), self.conv(11 * b + 10), second, 512);
        added_of::<A>(gated_of::<A>(second, gate), x)
    }

    /// Three sequences side by side.
    pub open spec fn joined_of(
        &self,
        a: Seq<Seq<A::Scalar>>,
        b: Seq<Seq<A::Scalar>>,
        c: Seq<Seq<A::Scalar>>,
    ) -> Seq<Seq<A::Scalar>> {
        Seq::new(a.len(), |t: int| a[t] + b[t] + c[t])
    }

    /// Attentive statistics pooling: means and deviations, weighted by attention over time.
    pub open spec fn pooled_of(&self, x: Seq<Seq<A::Scalar>>) -> Seq<A::Scalar> {
        let even = Seq::new(
            x.len(),
            |t: int| rows::filled(1_536, share_of::<A>(x.len() as int)),
        );
        let mean = means_of::<A>(x, even, 1_536);
        let deviation = deviations_of::<A>(x, even, 1_536);
        let context = Seq::new(x.len(), |t: int| x[t] + mean + deviation);
        let raised = self.conv(35).activated::<A>(context);
        let squashed = Seq::new(raised.len(), |t: int| kernels::map::<A>(Unary::Tanh, raised[t]));
        let attention = softmax_rows_of::<A>(self.conv(36).applied::<A>(squashed), 1_536);
        means_of::<A>(x, attention, 1_536) + deviations_of::<A>(x, attention, 1_536)
    }

    /// Aggregation, pooling and the last projection.
    pub open spec fn aggregated_of(
        &self,
        h1: Seq<Seq<A::Scalar>>,
        h2: Seq<Seq<A::Scalar>>,
        h3: Seq<Seq<A::Scalar>>,
    ) -> Seq<A::Scalar> {
        let hidden = self.conv(34).activated::<A>(self.joined_of(h1, h2, h3));
        self.conv(37).applied::<A>(seq![self.pooled_of(hidden)])[0]
    }

    /// The speaker vector of some mel frames. The first block's output is not aggregated.
    pub open spec fn encoded_of(&self, mel: Seq<Seq<A::Scalar>>) -> Seq<A::Scalar> {
        let h0 = self.initial_of(mel);
        let h1 = self.block_of(0, h0);
        let h2 = self.block_of(1, h1);
        let h3 = self.block_of(2, h2);
        self.aggregated_of(h1, h2, h3)
    }

    /// Applies one convolution.
    fn apply(&self, i: usize, x: &Vec<Vec<A::Scalar>>) -> (out: Vec<Vec<A::Scalar>>)
        requires
            self.wf(),
            i < CONV_COUNT,
            rows::uniform(rows::deep(x@), shape_of(i as int).input as int),
            2 * x@.len() + 8 <= isize::MAX,
        ensures
            out@.len() == x@.len(),
            rows::uniform(rows::deep(out@), shape_of(i as int).output as int),
            arith::pure::<A>() ==> rows::deep(out@) == self.conv(i as int).applied::<A>(
                rows::deep(x@),
            ),
    {
        proof {
            lemma_reach(i as int, x@.len() as int);
            assert(self.convs@[i as int].fits());
        }
        self.convs[i].apply::<A>(x)
    }

    /// Applies one convolution and raises every value to zero at least.
    fn apply_relu(&self, i: usize, x: &Vec<Vec<A::Scalar>>) -> (out: Vec<Vec<A::Scalar>>)
        requires
            self.wf(),
            i < CONV_COUNT,
            rows::uniform(rows::deep(x@), shape_of(i as int).input as int),
            2 * x@.len() + 8 <= isize::MAX,
        ensures
            out@.len() == x@.len(),
            rows::uniform(rows::deep(out@), shape_of(i as int).output as int),
            arith::pure::<A>() ==> rows::deep(out@) == self.conv(i as int).activated::<A>(
                rows::deep(x@),
            ),
    {
        proof {
            lemma_reach(i as int, x@.len() as int);
            assert(self.convs@[i as int].fits());
        }
        self.convs[i].apply_relu::<A>(x)
    }

    /// One block's Res2Net chain.
    fn res2net(&self, b: usize, x: &Vec<Vec<A::Scalar>>) -> (out: Vec<Vec<A::Scalar>>)
        requires
            self.wf(),
            b < 3,
            rows::uniform(rows::deep(x@), 512),
            2 * x@.len() + 8 <= isize::MAX,
        ensures
            out@.len() == x@.len(),
            rows::uniform(rows::deep(out@), 512),
            arith::pure::<A>() ==> rows::deep(out@) == res2net_of::<A>(
                self.branches(b as int),
                rows::deep(x@),
                64,
            ),
    {
        let ghost all = rows::deep(x@);
        let ghost branches = self.branches(b as int);
        let frames: usize = x.len();
        proof {
            assert forall|t: int| 0 <= t < x@.len() implies (#[trigger] x@[t])@.len() == 512 by {
                assert(all[t].len() == 512);
            }
        }
        let mut parts: Vec<Vec<Vec<A::Scalar>>> = Vec::new();
        for k in 0..8usize
            invariant
                self.wf(),
                b < 3,
                frames == x@.len(),
                all == rows::deep(x@),
                branches == self.branches(b as int),
                forall|t: int| 0 <= t < x@.len() ==> (#[trigger] x@[t])@.len() == 512,
                2 * x@.len() + 8 <= isize::MAX,
                parts@.len() == k,
                forall|j: int|
                    0 <= j < k ==> {
                        &&& (#[trigger] parts@[j])@.len() == frames
                        &&& rows::uniform(rows::deep(parts@[j]@), 64)
                        &&& arith::pure::<A>() ==> rows::deep(parts@[j]@) == chain_of::<A>(
                            branches,
                            all,
                            64,
                            j,
                        )
                    },
        {
            let own = group_rows(x, k, 64);
            if k == 0 {
                parts.push(own);
            } else {
                proof {
                    assert((11 * b + (k - 1)) % 11 == k - 1);
                    assert(11 * b + (k - 1) < 33);
                    assert(branches[k - 1] == self.conv(11 * b + (k - 1)));
                }
                let read = if k == 1 {
                    own
                } else {
                    proof {
                        assert(parts@[k - 1]@.len() == frames);
                    }
                    add_rows::<A>(&own, &parts[k - 1], 64)
                };
                parts.push(self.apply_relu(11 * b + (k - 1), &read));
            }
        }
        let mut out: Vec<Vec<A::Scalar>> = Vec::new();
        for t in 0..frames
            invariant
                frames == x@.len(),
                parts@.len() == 8,
                forall|j: int|
                    0 <= j < 8 ==> {
                        &&& (#[trigger] parts@[j])@.len() == frames
                        &&& rows::uniform(rows::deep(parts@[j]@), 64)
                        &&& arith::pure::<A>() ==> rows::deep(parts@[j]@) == chain_of::<A>(
                            branches,
                            all,
                            64,
                            j,
                        )
                    },
                out@.len() == t,
                forall|j: int| 0 <= j < t ==> (#[trigger] out@[j])@.len() == 512,
                arith::pure::<A>() ==> forall|j: int|
                    0 <= j < t ==> (#[trigger] out@[j])@ == Seq::new(
                        8,
                        |k: int| chain_of::<A>(branches, all, 64, k)[j],
                    ).flatten(),
        {
            let mut pieces: Vec<Vec<A::Scalar>> = Vec::new();
            for k in 0..8usize
                invariant
                    t < frames,
                    parts@.len() == 8,
                    forall|j: int|
                        0 <= j < 8 ==> {
                            &&& (#[trigger] parts@[j])@.len() == frames
                            &&& rows::uniform(rows::deep(parts@[j]@), 64)
                            &&& arith::pure::<A>() ==> rows::deep(parts@[j]@) == chain_of::<A>(
                                branches,
                                all,
                                64,
                                j,
                            )
                        },
                    pieces@.len() == k,
                    forall|j: int|
                        0 <= j < k ==> (#[trigger] pieces@[j])@ == rows::deep(
                            parts@[j]@,
                        )[t as int],
            {
                proof {
                    assert(parts@[k as int]@.len() == frames);
                }
                pieces.push(slice_to_vec(parts[k][t].as_slice()));
            }
            let ghost side = Seq::new(8, |k: int| rows::deep(parts@[k]@)[t as int]);
            proof {
                assert(rows::deep(pieces@) =~= side);
                assert forall|k: int| 0 <= k < 8 implies (#[trigger] side[k]).len() == 64 by {
                    assert(parts@[k]@.len() == frames);
                    assert(rows::deep(parts@[k]@)[t as int].len() == 64);
                }
                rows::lemma_flatten_len(side, 64);
                if arith::pure::<A>() {
                    assert(side =~= Seq::new(
                        8,
                        |k: int| chain_of::<A>(branches, all, 64, k)[t as int],
                    )) by {
                        assert forall|k: int| 0 <= k < 8 implies #[trigger] side[k]
                            == chain_of::<A>(branches, all, 64, k)[t as int] by {
                            assert(parts@[k]@.len() == frames);
                        }
                    }
                }
            }
            out.push(join_rows(&pieces));
        }
        proof {
            assert forall|j: int| 0 <= j < rows::deep(out@).len() implies (
            #[trigger] rows::deep(out@)[j]).len() == 512 by {
                assert(out@[j]@.len() == 512);
            }
            if arith::pure::<A>() {
                assert(rows::deep(out@) =~= res2net_of::<A>(branches, all, 64));
            }
        }
        out
    }

    /// One block's squeeze-excitation.
    fn squeeze_excite(&self, b: usize, x: &Vec<Vec<A::Scalar>>) -> (out: Vec<Vec<A::Scalar>>)
        requires
            self.wf(),
            b < 3,
            rows::uniform(rows::deep(x@), 512),
        ensures
            out@.len() == x@.len(),
            rows::uniform(rows::deep(out@), 512),
            arith::pure::<A>() ==> rows::deep(out@) == gated_of::<A>(
                rows::deep(x@),
                gate_of::<A>(
                    self.conv(11 * b + 9),
                    self.conv(11 * b + 10),
                    rows::deep(x@),
                    512,
                ),
            ),
    {
        let sum = sum_frames::<A>(x, 512);
        let pooled = single(scale::<A>(sum.as_slice(), share::<A>(x.len())));
        proof {
            assert((11 * b + 9) % 11 == 9 && (11 * b + 10) % 11 == 10);
        }
        let narrow = self.apply_relu(11 * b + 9, &pooled);
        let wide = self.apply(11 * b + 10, &narrow);
        proof {
            assert(rows::deep(wide@)[0].len() == 512);
        }
        let gate = sigmoid_each::<A>(only(&wide).as_slice());
        let ghost weights = gate_of::<A>(
            self.conv(11 * b + 9),
            self.conv(11 * b + 10),
            rows::deep(x@),
            512,
        );
        proof {
            if arith::pure::<A>() {
                assert(gate@ =~= weights);
            }
        }
        let mut out: Vec<Vec<A::Scalar>> = Vec::new();
        for t in 0..x.len()
            invariant
                rows::uniform(rows::deep(x@), 512),
                gate@.len() == 512,
                arith::pure::<A>() ==> gate@ == weights,
                out@.len() == t,
                forall|j: int| 0 <= j < t ==> (#[trigger] out@[j])@.len() == 512,
                arith::pure::<A>() ==> forall|j: int|
                    0 <= j < t ==> (#[trigger] out@[j])@ == kernels::zip::<A>(
                        Binary::Mul,
                        x@[j]@,
                        weights,
                    ),
        {
            proof {
                assert(rows::deep(x@)[t as int].len() == 512);
            }
            out.push(zip_with::<A>(Binary::Mul, x[t].as_slice(), gate.as_slice()));
        }
        proof {
            assert forall|j: int| 0 <= j < rows::deep(out@).len() implies (
            #[trigger] rows::deep(out@)[j]).len() == 512 by {
                assert(out@[j]@.len() == 512);
            }
            if arith::pure::<A>() {
                assert(rows::deep(out@) =~= gated_of::<A>(rows::deep(x@), weights));
            }
        }
        out
    }

    /// One SE-Res2Net block over rows.
    fn block(&self, b: usize, x: &Vec<Vec<A::Scalar>>) -> (out: Vec<Vec<A::Scalar>>)
        requires
            self.wf(),
            b < 3,
            rows::uniform(rows::deep(x@), 512),
            2 * x@.len() + 8 <= isize::MAX,
        ensures
            out@.len() == x@.len(),
            rows::uniform(rows::deep(out@), 512),
            arith::pure::<A>() ==> rows::deep(out@) == self.block_of(b as int, rows::deep(x@)),
    {
        proof {
            assert((11 * b + 7) % 11 == 7 && (11 * b + 8) % 11 == 8);
        }
        let first = self.apply_relu(11 * b + 7, x);
        let chained = self.res2net(b, &first);
        let second = self.apply_relu(11 * b + 8, &chained);
        let gated = self.squeeze_excite(b, &second);
        add_rows::<A>(&gated, x, 512)
    }
}

/// That what convolution `i` reads over `frames` can be counted.
proof fn lemma_reach(i: int, frames: int)
    requires
        0 <= i < CONV_COUNT,
        2 * frames + 8 <= isize::MAX,
    ensures
        conv::reach_fits(
            frames,
            shape_of(i).kernel as int,
            shape_of(i).dilation as int,
        ),
{
    let k = shape_of(i).kernel as int;
    let d = shape_of(i).dilation as int;
    assert((k == 3 && 0 < d <= 4) || (k == 1 && d == 1) || (k == 5 && d == 1));
    assert((k - 1) * d <= 8) by (nonlinear_arith)
        requires
            (k == 3 && 0 < d <= 4) || (k == 1 && d == 1) || (k == 5 && d == 1),
    ;
}

impl<A: Arithmetic> Encoder<A> {
    /// Attentive statistics pooling over rows.
    fn pool(&self, x: &Vec<Vec<A::Scalar>>) -> (pooled: Vec<A::Scalar>)
        requires
            self.wf(),
            rows::uniform(rows::deep(x@), 1_536),
            x@.len() * 1_536 <= usize::MAX,
            2 * x@.len() + 8 <= isize::MAX,
        ensures
            pooled@.len() == 3_072,
            arith::pure::<A>() ==> pooled@ == self.pooled_of(rows::deep(x@)),
    {
        let frames: usize = x.len();
        let ghost all = rows::deep(x@);
        let flat = join_rows(x);
        let zero = constant::<A>(Constant::Zero);
        let even = share::<A>(frames);
        let ghost evens = Seq::new(
            frames as nat,
            |t: int| rows::filled(1_536, share_of::<A>(frames as int)),
        );
        proof {
            rows::lemma_flatten_len(all, 1_536);
            rows::lemma_unstack_flatten(all, 1_536);
        }
        let mut mean = fill(1_536, zero);
        let mut deviation = fill(1_536, zero);
        let uniform = |slot: usize| -> (r: A::Scalar)
            requires
                slot < flat@.len(),
            ensures
                r == even,
            { even };
        statistics::<A, _>(
            flat.as_slice(),
            frames,
            1_536,
            mean.as_mut_slice(),
            deviation.as_mut_slice(),
            uniform,
        );
        proof {
            if arith::pure::<A>() {
                let w = rows::filled(flat@.len() as int, even);
                assert(answers(uniform, w));
                assert(rows::unstack(w, frames as int, 1_536) =~= evens) by {
                    assert forall|t: int| 0 <= t < frames implies #[trigger] rows::unstack(
                        w,
                        frames as int,
                        1_536,
                    )[t] == evens[t] by {
                        rows::lemma_row_bounds(t, frames as int, 1_536);
                        assert(rows::row(w, t, 1_536) =~= evens[t]);
                    }
                }
                assert(mean@ == means_of::<A>(all, evens, 1_536));
                assert(deviation@ == deviations_of::<A>(all, evens, 1_536));
            }
        }
        let mut context: Vec<Vec<A::Scalar>> = Vec::new();
        for t in 0..frames
            invariant
                frames == x@.len(),
                all == rows::deep(x@),
                rows::uniform(all, 1_536),
                mean@.len() == 1_536,
                deviation@.len() == 1_536,
                context@.len() == t,
                forall|j: int|
                    0 <= j < t ==> (#[trigger] context@[j])@ == all[j] + mean@ + deviation@,
        {
            let mut row = slice_to_vec(x[t].as_slice());
            append_row(&mut row, mean.as_slice());
            append_row(&mut row, deviation.as_slice());
            context.push(row);
        }
        let ghost contexts = Seq::new(frames as nat, |t: int| all[t] + mean@ + deviation@);
        proof {
            assert(rows::deep(context@) =~= contexts);
            assert forall|j: int| 0 <= j < contexts.len() implies (#[trigger] contexts[j]).len()
                == 4_608 by {
                assert(all[j].len() == 1_536);
            }
        }
        let raised = self.apply_relu(35, &context);
        let mut squashed: Vec<Vec<A::Scalar>> = Vec::new();
        for t in 0..raised.len()
            invariant
                rows::uniform(rows::deep(raised@), 128),
                squashed@.len() == t,
                forall|j: int| 0 <= j < t ==> (#[trigger] squashed@[j])@.len() == 128,
                arith::pure::<A>() ==> forall|j: int|
                    0 <= j < t ==> (#[trigger] squashed@[j])@ == kernels::map::<A>(
                        Unary::Tanh,
                        raised@[j]@,
                    ),
        {
            proof {
                assert(rows::deep(raised@)[t as int].len() == 128);
            }
            squashed.push(map_each::<A>(Unary::Tanh, raised[t].as_slice()));
        }
        proof {
            assert forall|j: int| 0 <= j < rows::deep(squashed@).len() implies (
            #[trigger] rows::deep(squashed@)[j]).len() == 128 by {
                assert(squashed@[j]@.len() == 128);
            }
            if arith::pure::<A>() {
                assert(rows::deep(squashed@) =~= Seq::new(
                    rows::deep(raised@).len(),
                    |t: int| kernels::map::<A>(Unary::Tanh, rows::deep(raised@)[t]),
                ));
            }
        }
        let scores = self.apply(36, &squashed);
        let weights = softmax_rows::<A>(&scores, 1_536);
        let attention = join_rows(&weights);
        proof {
            rows::lemma_flatten_len(rows::deep(weights@), 1_536);
            rows::lemma_unstack_flatten(rows::deep(weights@), 1_536);
        }
        let attended = |slot: usize| -> (r: A::Scalar)
            requires
                slot < attention@.len(),
            ensures
                r == attention@[slot as int],
            { attention[slot] };
        statistics::<A, _>(
            flat.as_slice(),
            frames,
            1_536,
            mean.as_mut_slice(),
            deviation.as_mut_slice(),
            attended,
        );
        proof {
            if arith::pure::<A>() {
                assert(answers(attended, attention@));
            }
        }
        let mut pooled = mean;
        append_row(&mut pooled, deviation.as_slice());
        pooled
    }

    /// Three sequences side by side.
    fn join3(
        &self,
        a: &Vec<Vec<A::Scalar>>,
        b: &Vec<Vec<A::Scalar>>,
        c: &Vec<Vec<A::Scalar>>,
    ) -> (out: Vec<Vec<A::Scalar>>)
        requires
            a@.len() == b@.len() == c@.len(),
            rows::uniform(rows::deep(a@), 512),
            rows::uniform(rows::deep(b@), 512),
            rows::uniform(rows::deep(c@), 512),
        ensures
            out@.len() == a@.len(),
            rows::uniform(rows::deep(out@), 1_536),
            rows::deep(out@) == self.joined_of(rows::deep(a@), rows::deep(b@), rows::deep(c@)),
    {
        let mut out: Vec<Vec<A::Scalar>> = Vec::new();
        for t in 0..a.len()
            invariant
                a@.len() == b@.len() == c@.len(),
                out@.len() == t,
                forall|j: int|
                    0 <= j < t ==> (#[trigger] out@[j])@ == a@[j]@ + b@[j]@ + c@[j]@,
        {
            let mut row = slice_to_vec(a[t].as_slice());
            append_row(&mut row, b[t].as_slice());
            append_row(&mut row, c[t].as_slice());
            out.push(row);
        }
        proof {
            assert forall|j: int| 0 <= j < rows::deep(out@).len() implies (
            #[trigger] rows::deep(out@)[j]).len() == 1_536 by {
                assert(out@[j]@ == a@[j]@ + b@[j]@ + c@[j]@);
                assert(rows::deep(a@)[j].len() == 512);
                assert(rows::deep(b@)[j].len() == 512);
                assert(rows::deep(c@)[j].len() == 512);
            }
            assert(rows::deep(out@) =~= self.joined_of(
                rows::deep(a@),
                rows::deep(b@),
                rows::deep(c@),
            ));
        }
        out
    }

    /// Aggregation, pooling and the last projection over rows.
    fn aggregate_rows(
        &self,
        h1: &Vec<Vec<A::Scalar>>,
        h2: &Vec<Vec<A::Scalar>>,
        h3: &Vec<Vec<A::Scalar>>,
    ) -> (vector: Vec<A::Scalar>)
        requires
            self.wf(),
            h1@.len() == h2@.len() == h3@.len(),
            h1@.len() > 0,
            rows::uniform(rows::deep(h1@), 512),
            rows::uniform(rows::deep(h2@), 512),
            rows::uniform(rows::deep(h3@), 512),
            h1@.len() * 1_536 <= usize::MAX,
            2 * h1@.len() + 8 <= isize::MAX,
        ensures
            vector@.len() == 1_024,
            arith::pure::<A>() ==> vector@ == self.aggregated_of(
                rows::deep(h1@),
                rows::deep(h2@),
                rows::deep(h3@),
            ),
    {
        let joined = self.join3(h1, h2, h3);
        let hidden = self.apply_relu(34, &joined);
        let pooled = single(self.pool(&hidden));
        let out = self.apply(37, &pooled);
        proof {
            assert(rows::deep(out@)[0].len() == 1_024);
        }
        only(&out)
    }

    /// Reads the encoder: seventy-six tensors, each of exactly the length its place asks for.
    pub fn load(file: &TensorFile<A::Scalar>, path: &str) -> (result: Result<Self, CheckpointError>)
        ensures
            match result {
                Ok(encoder) => {
                    &&& encoder.wf()
                    &&& encoder.label() == path@
                    &&& forall|i: int|
                        0 <= i < 76 ==> checkpoint::exact_tensor::<A>(
                            *file,
                            #[trigger] name_of(i),
                            len_of(i),
                        ) is Some
                    &&& arith::pure::<A>() ==> forall|i: int|
                        0 <= i < CONV_COUNT ==> {
                            &&& checkpoint::exact_tensor::<A>(
                                *file,
                                name_of(2 * i),
                                len_of(2 * i),
                            ) == Some((#[trigger] encoder.conv(i)).weight@)
                            &&& checkpoint::exact_tensor::<A>(
                                *file,
                                name_of(2 * i + 1),
                                len_of(2 * i + 1),
                            ) == Some(encoder.conv(i).bias@)
                        }
                },
                Err(error) => exists|i: int|
                    {
                        &&& 0 <= i < 76
                        &&& forall|j: int|
                            0 <= j < i ==> checkpoint::exact_tensor::<A>(
                                *file,
                                #[trigger] name_of(j),
                                len_of(j),
                            ) is Some
                        &&& checkpoint::exact_tensor::<A>(
                            *file,
                            name_of(i),
                            len_of(i),
                        ) is None
                        &&& #[trigger] checkpoint::exact_refused::<A>(
                            *file,
                            path@,
                            name_of(i),
                            len_of(i),
                            error,
                        )
                    },
            },
    {
        let mut convs: Vec<Conv<A::Scalar>> = Vec::new();
        for i in 0..CONV_COUNT
            invariant
                convs@.len() == i,
                forall|j: int|
                    0 <= j < 2 * i ==> checkpoint::exact_tensor::<A>(
                        *file,
                        #[trigger] name_of(j),
                        len_of(j),
                    ) is Some,
                forall|j: int|
                    0 <= j < i ==> {
                        &&& (#[trigger] convs@[j]).fits()
                        &&& convs@[j].in_channels == shape_of(j).input
                        &&& convs@[j].out_channels == shape_of(j).output
                        &&& convs@[j].kernel == shape_of(j).kernel
                        &&& convs@[j].dilation == shape_of(j).dilation
                        &&& arith::pure::<A>() ==> {
                            &&& checkpoint::exact_tensor::<A>(
                                *file,
                                name_of(2 * j),
                                len_of(2 * j),
                            ) == Some(convs@[j].weight@)
                            &&& checkpoint::exact_tensor::<A>(
                                *file,
                                name_of(2 * j + 1),
                                len_of(2 * j + 1),
                            ) == Some(convs@[j].bias@)
                        }
                    },
        {
            let shape = conv_shape(i);
            let base = conv_base(i);
            let (input, output, kernel) = (shape.input, shape.output, shape.kernel);
            proof {
                assert((2 * i) as int / 2 == i && (2 * i) as int % 2 == 0);
                assert((2 * i + 1) as int / 2 == i && (2 * i + 1) as int % 2 == 1);
                assert(output * input <= 1_536 * 4_608 && output * input * kernel <= 1_536 * 4_608
                    * 5) by (nonlinear_arith)
                    requires
                        output <= 1_536,
                        input <= 4_608,
                        kernel <= 5,
                ;
            }
            let name = join(base.as_str(), ".weight");
            let weight = match widen_exact::<A>(
                file,
                path,
                name.as_str(),
                output * input * kernel,
            ) {
                Ok(weight) => weight,
                Err(error) => {
                    proof {
                        assert(checkpoint::exact_refused::<A>(
                            *file,
                            path@,
                            name_of(2 * i),
                            len_of(2 * i),
                            error,
                        ));
                    }
                    return Err(error);
                },
            };
            let name = join(base.as_str(), ".bias");
            let bias = match widen_exact::<A>(file, path, name.as_str(), output) {
                Ok(bias) => bias,
                Err(error) => {
                    proof {
                        assert(checkpoint::exact_refused::<A>(
                            *file,
                            path@,
                            name_of(2 * i + 1),
                            len_of(2 * i + 1),
                            error,
                        ));
                    }
                    return Err(error);
                },
            };
            convs.push(
                Conv {
                    weight,
                    bias,
                    in_channels: input,
                    out_channels: output,
                    kernel,
                    dilation: shape.dilation,
                },
            );
        }
        Ok(Encoder { path: String::from_str(path), convs })
    }

    /// Where the encoder was read from.
    pub fn path(&self) -> (path: &str)
        ensures
            path@ == self.label(),
    {
        self.path.as_str()
    }

    /// The first block.
    pub fn initial_block(&self, mel: &[A::Scalar], frames: usize) -> (out: Vec<A::Scalar>)
        requires
            self.wf(),
            mel@.len() == frames * MEL_DIM,
            2 * frames + 8 <= isize::MAX,
        ensures
            out@.len() == frames * 512,
            arith::pure::<A>() ==> out@ == self.initial_of(
                rows::unstack(mel@, frames as int, MEL_DIM as int),
            ).flatten(),
    {
        let x = split_rows(mel, frames, MEL_DIM);
        proof {
            assert(rows::deep(x@).len() == frames);
        }
        let out = self.apply_relu(33, &x);
        proof {
            rows::lemma_flatten_len(rows::deep(out@), 512);
        }
        join_rows(&out)
    }

    /// SE-Res2Net block `index`, counted from one.
    pub fn se_res2net_block(&self, index: usize, input: &[A::Scalar], frames: usize) -> (out: Vec<
        A::Scalar,
    >)
        requires
            self.wf(),
            1 <= index <= 3,
            input@.len() == frames * 512,
            2 * frames + 8 <= isize::MAX,
        ensures
            out@.len() == frames * 512,
            arith::pure::<A>() ==> out@ == self.block_of(
                index - 1,
                rows::unstack(input@, frames as int, 512),
            ).flatten(),
    {
        let x = split_rows(input, frames, 512);
        proof {
            assert(rows::deep(x@).len() == frames);
        }
        let out = self.block(index - 1, &x);
        proof {
            rows::lemma_flatten_len(rows::deep(out@), 512);
        }
        join_rows(&out)
    }

    /// Aggregates three block outputs, in this order, into one speaker vector.
    pub fn aggregate(
        &self,
        h1: &[A::Scalar],
        h2: &[A::Scalar],
        h3: &[A::Scalar],
        frames: usize,
    ) -> (vector: Vec<A::Scalar>)
        requires
            self.wf(),
            frames > 0,
            h1@.len() == frames * 512,
            h2@.len() == frames * 512,
            h3@.len() == frames * 512,
            frames * 1_536 <= usize::MAX,
            2 * frames + 8 <= isize::MAX,
        ensures
            vector@.len() == 1_024,
            arith::pure::<A>() ==> vector@ == self.aggregated_of(
                rows::unstack(h1@, frames as int, 512),
                rows::unstack(h2@, frames as int, 512),
                rows::unstack(h3@, frames as int, 512),
            ),
    {
        let a = split_rows(h1, frames, 512);
        let b = split_rows(h2, frames, 512);
        let c = split_rows(h3, frames, 512);
        proof {
            assert(rows::deep(a@).len() == frames);
            assert(rows::deep(b@).len() == frames);
            assert(rows::deep(c@).len() == frames);
        }
        self.aggregate_rows(&a, &b, &c)
    }

    /// The speaker vector of some mel frames.
    pub fn encode(&self, mel: &[A::Scalar], frames: usize) -> (vector: Vec<A::Scalar>)
        requires
            self.wf(),
            frames > 0,
            mel@.len() == frames * MEL_DIM,
            frames * 1_536 <= usize::MAX,
            2 * frames + 8 <= isize::MAX,
        ensures
            vector@.len() == 1_024,
            arith::pure::<A>() ==> vector@ == self.encoded_of(
                rows::unstack(mel@, frames as int, MEL_DIM as int),
            ),
    {
        let x = split_rows(mel, frames, MEL_DIM);
        proof {
            assert(rows::deep(x@).len() == frames);
        }
        let h0 = self.apply_relu(33, &x);
        let h1 = self.block(0, &h0);
        let h2 = self.block(1, &h1);
        let h3 = self.block(2, &h2);
        self.aggregate_rows(&h1, &h2, &h3)
    }
}

} // verus!
