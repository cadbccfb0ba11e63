//! Packet-at-a-time forms of the causal convolutions.
//!
//! Each stream keeps the input frames that can still reach a future output frame and recomputes
//! a packet through the same whole-sequence convolution, so that every sum runs in the same
//! order whichever way the sequence was cut.
use vstd::prelude::*;
use crate::arith;
use crate::arith::Arithmetic;
use crate::codec::conv;
use crate::codec::conv::{conv_rows, depthwise_rows, transposed_rows};
use crate::kernels;
use crate::rows;
use crate::rows::{concat_rows, join_rows, split_rows, tail_rows};

verus! {

/// Persistent left context for one causal convolution.
pub struct CausalConvStream<A: Arithmetic> {
    input_channels: usize,
    kernel: usize,
    dilation: usize,
    history: Vec<Vec<A::Scalar>>,
}

impl<A: Arithmetic> CausalConvStream<A> {
    /// Channels of one input frame.
    pub closed spec fn channels(&self) -> int {
        self.input_channels as int
    }

    /// Taps of the convolution.
    pub closed spec fn taps(&self) -> int {
        self.kernel as int
    }

    /// Frames between two taps.
    pub closed spec fn spacing(&self) -> int {
        self.dilation as int
    }

    /// The retained input frames, oldest first.
    pub closed spec fn history(&self) -> Seq<Seq<A::Scalar>> {
        rows::deep(self.history@)
    }

    /// Input frames that can still reach a future output frame.
    pub open spec fn keep(&self) -> int {
        (self.taps() - 1) * self.spacing()
    }

    /// Positive geometry and at most the retained context of frames of the right width.
    pub open spec fn wf(&self) -> bool {
        &&& self.channels() > 0
        &&& self.taps() > 0
        &&& self.spacing() > 0
        &&& self.channels() <= usize::MAX
        &&& self.keep() <= usize::MAX
        &&& self.history().len() <= self.keep()
        &&& rows::uniform(self.history(), self.channels())
    }

    /// An empty stream retaining `(kernel - 1) * dilation` input frames.
    pub fn new(input_channels: usize, kernel: usize, dilation: usize) -> (stream: Self)
        requires
            input_channels > 0,
            kernel > 0,
            dilation > 0,
            (kernel - 1) * dilation <= usize::MAX,
        ensures
            stream.wf(),
            stream.channels() == input_channels,
            stream.taps() == kernel,
            stream.spacing() == dilation,
            stream.history() == Seq::<Seq<A::Scalar>>::empty(),
    {
        let stream = CausalConvStream { input_channels, kernel, dilation, history: Vec::new() };
        proof {
            assert(stream.history() =~= Seq::<Seq<A::Scalar>>::empty());
            assert(0 <= (kernel - 1) * dilation) by (nonlinear_arith)
                requires
                    kernel > 0,
                    dilation > 0,
            ;
        }
        stream
    }

    /// Drops the retained context.
    pub fn clear(&mut self)
        requires
            old(self).wf(),
        ensures
            final(self).wf(),
            final(self).channels() == old(self).channels(),
            final(self).taps() == old(self).taps(),
            final(self).spacing() == old(self).spacing(),
            final(self).history() == Seq::<Seq<A::Scalar>>::empty(),
    {
        self.history.clear();
        proof {
            assert(self.history() =~= Seq::<Seq<A::Scalar>>::empty());
        }
    }

    /// Processes a packet of rows and returns the output rows it completes.
    pub fn push_rows(
        &mut self,
        packet: &Vec<Vec<A::Scalar>>,
        weight: &[A::Scalar],
        bias: Option<&[A::Scalar]>,
        output_channels: usize,
    ) -> (out: Vec<Vec<A::Scalar>>)
        requires
            old(self).wf(),
            rows::uniform(rows::deep(packet@), old(self).channels()),
            weight@.len() == output_channels * old(self).channels() * old(self).taps(),
            bias matches Some(b) ==> b@.len() == output_channels,
        ensures
            final(self).wf(),
            final(self).channels() == old(self).channels(),
            final(self).taps() == old(self).taps(),
            final(self).spacing() == old(self).spacing(),
            final(self).history() == conv::latest(
                old(self).history() + rows::deep(packet@),
                old(self).keep(),
            ),
            out@.len() == packet@.len(),
            rows::uniform(rows::deep(out@), output_channels as int),
            arith::pure::<A>() ==> rows::deep(out@) == conv::conv_of::<A>(
                old(self).history() + rows::deep(packet@),
                old(self).channels(),
                weight@,
                kernels::opt_view(bias),
                output_channels as int,
                old(self).taps(),
                old(self).spacing(),
            ).skip(old(self).history().len() as int),
    {
        let seen: usize = self.history.len();
        let joined = concat_rows(&self.history, packet);
        proof {
            rows::lemma_uniform_concat(self.history(), rows::deep(packet@), self.channels());
            assert(rows::deep(joined@).len() == joined@.len());
        }
        let all = conv_rows::<A>(
            &joined,
            self.input_channels,
            weight,
            bias,
            output_channels,
            self.kernel,
            self.dilation,
        );
        let out = tail_rows(&all, seen);
        let keep: usize = (self.kernel - 1) * self.dilation;
        let from: usize = if joined.len() <= keep {
            0
        } else {
            joined.len() - keep
        };
        self.history = tail_rows(&joined, from);
        proof {
            rows::lemma_uniform_skip(rows::deep(all@), seen as int, output_channels as int);
            rows::lemma_uniform_skip(rows::deep(joined@), from as int, self.channels());
            assert(self.history() =~= conv::latest(rows::deep(joined@), keep as int));
        }
        out
    }

    /// Processes a packet and emits only its newly produced output frames.
    pub fn push(
        &mut self,
        input: &[A::Scalar],
        frames: usize,
        weight: &[A::Scalar],
        bias: Option<&[A::Scalar]>,
        output_channels: usize,
        output: &mut Vec<A::Scalar>,
    )
        requires
            old(self).wf(),
            input@.len() == frames * old(self).channels(),
            weight@.len() == output_channels * old(self).channels() * old(self).taps(),
            bias matches Some(b) ==> b@.len() == output_channels,
        ensures
            final(self).wf(),
            final(self).channels() == old(self).channels(),
            final(self).taps() == old(self).taps(),
            final(self).spacing() == old(self).spacing(),
            final(self).history() == conv::latest(
                old(self).history() + rows::unstack(input@, frames as int, old(self).channels()),
                old(self).keep(),
            ),
            final(output)@.len() == frames * output_channels,
            arith::pure::<A>() ==> final(output)@ == conv::conv_of::<A>(
                old(self).history() + rows::unstack(input@, frames as int, old(self).channels()),
                old(self).channels(),
                weight@,
                kernels::opt_view(bias),
                output_channels as int,
                old(self).taps(),
                old(self).spacing(),
            ).skip(old(self).history().len() as int).flatten(),
    {
        let packet = split_rows(input, frames, self.input_channels);
        proof {
            assert(rows::deep(packet@).len() == frames);
        }
        let rows_out = self.push_rows(&packet, weight, bias, output_channels);
        *output = join_rows(&rows_out);
        proof {
            rows::lemma_flatten_len(rows::deep(rows_out@), output_channels as int);
        }
    }
}

/// Persistent left context for one causal transposed convolution.
///
/// The retained frames are inputs, never partial sums: carrying sums forward would finish each
/// sample in the opposite tap order.
pub struct CausalTransposeConvStream<A: Arithmetic> {
    input_channels: usize,
    output_channels: usize,
    kernel: usize,
    stride: usize,
    history: Vec<Vec<A::Scalar>>,
}

impl<A: Arithmetic> CausalTransposeConvStream<A> {
    /// Channels of one input frame.
    pub closed spec fn channels(&self) -> int {
        self.input_channels as int
    }

    /// Channels of one output frame.
    pub closed spec fn outputs(&self) -> int {
        self.output_channels as int
    }

    /// Taps of the convolution.
    pub closed spec fn taps(&self) -> int {
        self.kernel as int
    }

    /// Output frames per input frame.
    pub closed spec fn step(&self) -> int {
        self.stride as int
    }

    /// The retained input frames, oldest first.
    pub closed spec fn history(&self) -> Seq<Seq<A::Scalar>> {
        rows::deep(self.history@)
    }

    /// Input frames that can still reach a future output frame.
    pub open spec fn keep(&self) -> int {
        (self.taps() - 1) / self.step()
    }

    /// Positive geometry and at most the retained context of frames of the right width.
    pub open spec fn wf(&self) -> bool {
        &&& 0 < self.channels() <= usize::MAX
        &&& 0 < self.outputs() <= usize::MAX
        &&& 0 < self.step() <= self.taps()
        &&& self.taps() <= usize::MAX
        &&& self.history().len() <= self.keep()
        &&& rows::uniform(self.history(), self.channels())
    }

    /// An empty stream retaining `(kernel - 1) / stride` input frames.
    pub fn new(
        input_channels: usize,
        output_channels: usize,
        kernel: usize,
        stride: usize,
    ) -> (stream: Self)
        requires
            input_channels > 0,
            output_channels > 0,
            kernel >= stride,
            stride > 0,
        ensures
            stream.wf(),
            stream.channels() == input_channels,
            stream.outputs() == output_channels,
            stream.taps() == kernel,
            stream.step() == stride,
            stream.history() == Seq::<Seq<A::Scalar>>::empty(),
    {
        let stream = CausalTransposeConvStream {
            input_channels,
            output_channels,
            kernel,
            stride,
            history: Vec::new(),
        };
        proof {
            assert(stream.history() =~= Seq::<Seq<A::Scalar>>::empty());
            vstd::arithmetic::div_mod::lemma_div_pos_is_pos(kernel - 1, stride as int);
        }
        stream
    }

    /// Drops the retained context.
    pub fn clear(&mut self)
        requires
            old(self).wf(),
        ensures
            final(self).wf(),
            final(self).channels() == old(self).channels(),
            final(self).outputs() == old(self).outputs(),
            final(self).taps() == old(self).taps(),
            final(self).step() == old(self).step(),
            final(self).history() == Seq::<Seq<A::Scalar>>::empty(),
    {
        self.history.clear();
        proof {
            assert(self.history() =~= Seq::<Seq<A::Scalar>>::empty());
        }
    }

    /// Processes a packet of rows and returns the output rows it completes.
    pub fn push_rows(
        &mut self,
        packet: &Vec<Vec<A::Scalar>>,
        weight: &[A::Scalar],
        bias: Option<&[A::Scalar]>,
    ) -> (out: Vec<Vec<A::Scalar>>)
        requires
            old(self).wf(),
            rows::uniform(rows::deep(packet@), old(self).channels()),
            weight@.len() == old(self).channels() * old(self).outputs() * old(self).taps(),
            bias matches Some(b) ==> b@.len() == old(self).outputs(),
            (old(self).history().len() + packet@.len()) * old(self).step() <= usize::MAX,
        ensures
            final(self).wf(),
            final(self).channels() == old(self).channels(),
            final(self).outputs() == old(self).outputs(),
            final(self).taps() == old(self).taps(),
            final(self).step() == old(self).step(),
            final(self).history() == conv::latest(
                old(self).history() + rows::deep(packet@),
                old(self).keep(),
            ),
            out@.len() == packet@.len() * old(self).step(),
            rows::uniform(rows::deep(out@), old(self).outputs()),
            arith::pure::<A>() ==> rows::deep(out@) == conv::transposed_of::<A>(
                old(self).history() + rows::deep(packet@),
                old(self).channels(),
                weight@,
                kernels::opt_view(bias),
                old(self).outputs(),
                old(self).taps(),
                old(self).step(),
            ).skip((old(self).history().len() * old(self).step()) as int),
    {
        let seen: usize = self.history.len();
        let joined = concat_rows(&self.history, packet);
        proof {
            rows::lemma_uniform_concat(self.history(), rows::deep(packet@), self.channels());
            assert(rows::deep(joined@).len() == joined@.len());
            assert(joined@.len() == seen + packet@.len());
            assert(joined@.len() * self.stride == seen * self.stride + packet@.len() * self.stride)
                by (nonlinear_arith)
                requires
                    joined@.len() == seen + packet@.len(),
            ;
            assert(0 <= seen * self.stride) by (nonlinear_arith);
            assert(0 <= packet@.len() * self.stride) by (nonlinear_arith);
        }
        let all = transposed_rows::<A>(
            &joined,
            self.input_channels,
            weight,
            bias,
            self.output_channels,
            self.kernel,
            self.stride,
        );
        let skip: usize = seen * self.stride;
        let out = tail_rows(&all, skip);
        let keep: usize = (self.kernel - 1) / self.stride;
        let from: usize = if joined.len() <= keep {
            0
        } else {
            joined.len() - keep
        };
        self.history = tail_rows(&joined, from);
        proof {
            rows::lemma_uniform_skip(rows::deep(all@), skip as int, self.outputs());
            rows::lemma_uniform_skip(rows::deep(joined@), from as int, self.channels());
            assert(self.history() =~= conv::latest(rows::deep(joined@), keep as int));
        }
        out
    }

    /// Processes a packet and writes its finished output frames, `frames * stride` of them.
    pub fn push(
        &mut self,
        input: &[A::Scalar],
        frames: usize,
        weight: &[A::Scalar],
        bias: Option<&[A::Scalar]>,
        output: &mut Vec<A::Scalar>,
    )
        requires
            old(self).wf(),
            input@.len() == frames * old(self).channels(),
            weight@.len() == old(self).channels() * old(self).outputs() * old(self).taps(),
            bias matches Some(b) ==> b@.len() == old(self).outputs(),
            (old(self).history().len() + frames) * old(self).step() <= usize::MAX,
        ensures
            final(self).wf(),
            final(self).channels() == old(self).channels(),
            final(self).outputs() == old(self).outputs(),
            final(self).taps() == old(self).taps(),
            final(self).step() == old(self).step(),
            final(self).history() == conv::latest(
                old(self).history() + rows::unstack(input@, frames as int, old(self).channels()),
                old(self).keep(),
            ),
            final(output)@.len() == frames * old(self).step() * old(self).outputs(),
            arith::pure::<A>() ==> final(output)@ == conv::transposed_of::<A>(
                old(self).history() + rows::unstack(input@, frames as int, old(self).channels()),
                old(self).channels(),
                weight@,
                kernels::opt_view(bias),
                old(self).outputs(),
                old(self).taps(),
                old(self).step(),
            ).skip((old(self).history().len() * old(self).step()) as int).flatten(),
    {
        let packet = split_rows(input, frames, self.input_channels);
        proof {
            assert(rows::deep(packet@).len() == frames);
        }
        let rows_out = self.push_rows(&packet, weight, bias);
        *output = join_rows(&rows_out);
        proof {
            rows::lemma_flatten_len(rows::deep(rows_out@), old(self).outputs());
        }
    }
}

/// Persistent left context for one causal depthwise convolution.
pub struct CausalDepthwiseConvStream<A: Arithmetic> {
    channels: usize,
    kernel: usize,
    history: Vec<Vec<A::Scalar>>,
}

impl<A: Arithmetic> CausalDepthwiseConvStream<A> {
    /// Channels of one frame.
    pub closed spec fn width(&self) -> int {
        self.channels as int
    }

    /// Taps of the convolution.
    pub closed spec fn taps(&self) -> int {
        self.kernel as int
    }

    /// The retained input frames, oldest first.
    pub closed spec fn history(&self) -> Seq<Seq<A::Scalar>> {
        rows::deep(self.history@)
    }

    /// Positive geometry and at most the retained context of frames of the right width.
    pub open spec fn wf(&self) -> bool {
        &&& 0 < self.width() <= usize::MAX
        &&& 0 < self.taps() <= usize::MAX
        &&& self.history().len() <= self.taps() - 1
        &&& rows::uniform(self.history(), self.width())
    }

    /// An empty stream retaining `kernel - 1` input frames.
    pub fn new(channels: usize, kernel: usize) -> (stream: Self)
        requires
            channels > 0,
            kernel > 0,
        ensures
            stream.wf(),
            stream.width() == channels,
            stream.taps() == kernel,
            stream.history() == Seq::<Seq<A::Scalar>>::empty(),
    {
        let stream = CausalDepthwiseConvStream { channels, kernel, history: Vec::new() };
        proof {
            assert(stream.history() =~= Seq::<Seq<A::Scalar>>::empty());
        }
        stream
    }

    /// Drops the retained context.
    pub fn clear(&mut self)
        requires
            old(self).wf(),
        ensures
            final(self).wf(),
            final(self).width() == old(self).width(),
            final(self).taps() == old(self).taps(),
            final(self).history() == Seq::<Seq<A::Scalar>>::empty(),
    {
        self.history.clear();
        proof {
            assert(self.history() =~= Seq::<Seq<A::Scalar>>::empty());
        }
    }

    /// Processes a packet of rows and returns the output rows it completes.
    pub fn push_rows(
        &mut self,
        packet: &Vec<Vec<A::Scalar>>,
        weight: &[A::Scalar],
        bias: &[A::Scalar],
    ) -> (out: Vec<Vec<A::Scalar>>)
        requires
            old(self).wf(),
            rows::uniform(rows::deep(packet@), old(self).width()),
            weight@.len() == old(self).width() * old(self).taps(),
            bias@.len() == old(self).width(),
        ensures
            final(self).wf(),
            final(self).width() == old(self).width(),
            final(self).taps() == old(self).taps(),
            final(self).history() == conv::latest(
                old(self).history() + rows::deep(packet@),
                old(self).taps() - 1,
            ),
            out@.len() == packet@.len(),
            rows::uniform(rows::deep(out@), old(self).width()),
            arith::pure::<A>() ==> rows::deep(out@) == conv::depthwise_of::<A>(
                old(self).history() + rows::deep(packet@),
                old(self).width(),
                weight@,
                bias@,
                old(self).taps(),
            ).skip(old(self).history().len() as int),
    {
        let seen: usize = self.history.len();
        let joined = concat_rows(&self.history, packet);
        proof {
            rows::lemma_uniform_concat(self.history(), rows::deep(packet@), self.width());
            assert(rows::deep(joined@).len() == joined@.len());
        }
        let all = depthwise_rows::<A>(&joined, self.channels, weight, bias, self.kernel);
        let out = tail_rows(&all, seen);
        let keep: usize = self.kernel - 1;
        let from: usize = if joined.len() <= keep {
            0
        } else {
            joined.len() - keep
        };
        self.history = tail_rows(&joined, from);
        proof {
            rows::lemma_uniform_skip(rows::deep(all@), seen as int, self.width());
            rows::lemma_uniform_skip(rows::deep(joined@), from as int, self.width());
            assert(self.history() =~= conv::latest(rows::deep(joined@), keep as int));
        }
        out
    }
}

} // verus!
