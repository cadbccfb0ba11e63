//! What a generator holds and how one frame follows from it.
use vstd::prelude::*;
use crate::arith;
use crate::arith::{constant, Arithmetic, Constant};
use crate::generate::error::GenerationError;
use crate::generate::residuals;
use crate::microdecoder::frame::{FrameInputs, MicrodecoderWeights, PackedRoute};
use crate::microdecoder::layer;
use crate::microdecoder::{MicrodecoderConfig, RopeTable, RESIDUAL_DEPTHS, RESIDUAL_VOCAB};
use crate::quant::Quantized;
use crate::rows;
use crate::sampler;
use crate::sampler::{SamplerError, SamplingMode, Widens, CODEC_EOS_TOKEN_ID};
use crate::talker;
use crate::talker::PRIMARY_CODE_VOCAB_SIZE;

verus! {

/// The codes of one frame: the primary code, then the residual codes.
#[derive(Clone, Debug, PartialEq, Eq)]
pub struct CodeFrame {
    /// The codes.
    pub codes: Vec<u32>,
}

/// How an utterance begins.
#[derive(Clone, Copy, Debug, PartialEq, Eq, Structural)]
pub enum UtteranceStart {
    /// The whole text is in the prompt.
    Fresh,
    /// More text may follow, and its end will be announced.
    Continuation,
}

/// The tables whose rows, summed, are the talker's next input.
#[derive(Clone, Debug)]
pub struct FeedbackTables<'a, S> {
    /// By primary code, `[PRIMARY_CODE_VOCAB_SIZE, hidden]`.
    pub talker_codec: &'a [S],
    /// By residual code, one `[RESIDUAL_VOCAB, hidden]` per depth.
    pub residual: Vec<&'a [S]>,
}

/// The reference voice where its codes condition the talker.
#[derive(Clone, Debug)]
pub struct ReferencePrompt<S> {
    /// The wrapped transcript.
    pub wrapped_ids: Vec<u32>,
    /// One row per reference frame.
    pub codec: Vec<Vec<S>>,
}

/// What the talker is to be run on: rows at consecutive positions.
#[derive(Clone, Debug)]
pub struct TalkerWork<S> {
    /// The rows, end to end.
    pub rows: Vec<S>,
    /// How many rows.
    pub count: usize,
    /// The position of the first.
    pub first_position: usize,
}

/// What one call for a frame gives.
#[derive(Clone, Debug)]
pub enum FrameStep<S> {
    /// A frame, and what the talker is to be run on before the next.
    Frame {
        /// The codes.
        frame: CodeFrame,
        /// The talker's next input.
        work: TalkerWork<S>,
    },
    /// The utterance is over.
    Finished,
    /// The next frame reads text that has not been given yet.
    AwaitingText,
}

/// Zero where a query may look, negative infinity where it may not.
pub open spec fn mask_of<A: Arithmetic>(query: int, key: int) -> A::Scalar {
    if key > query {
        arith::cst::<A>(Constant::NegativeInfinity)
    } else {
        arith::cst::<A>(Constant::Zero)
    }
}

/// The additive causal mask of a prompt, row by row of queries.
pub fn causal_mask<A: Arithmetic>(seq: usize) -> (mask: Vec<A::Scalar>)
    requires
        seq * seq <= usize::MAX,
    ensures
        mask@.len() == seq * seq,
        arith::pure::<A>() ==> forall|query: int, key: int|
            0 <= query < seq && 0 <= key < seq ==> #[trigger] rows::row(
                mask@,
                query,
                seq as int,
            )[key] == mask_of::<A>(query, key),
{
    let open = constant::<A>(Constant::Zero);
    let closed = constant::<A>(Constant::NegativeInfinity);
    let mut mask: Vec<Vec<A::Scalar>> = Vec::new();
    for query in 0..seq
        invariant
            arith::pure::<A>() ==> open == arith::cst::<A>(Constant::Zero),
            arith::pure::<A>() ==> closed == arith::cst::<A>(Constant::NegativeInfinity),
            mask@.len() == query,
            rows::uniform(rows::deep(mask@), seq as int),
            arith::pure::<A>() ==> forall|q: int, k: int|
                0 <= q < query && 0 <= k < seq ==> #[trigger] rows::deep(mask@)[q][k]
                    == mask_of::<A>(q, k),
    {
        let mut row: Vec<A::Scalar> = Vec::new();
        for key in 0..seq
            invariant
                arith::pure::<A>() ==> open == arith::cst::<A>(Constant::Zero),
                arith::pure::<A>() ==> closed == arith::cst::<A>(Constant::NegativeInfinity),
                row@.len() == key,
                arith::pure::<A>() ==> forall|k: int|
                    0 <= k < key ==> #[trigger] row@[k] == mask_of::<A>(query as int, k),
        {
            row.push(
                if key > query {
                    closed
                } else {
                    open
                },
            );
        }
        let ghost before = mask@;
        mask.push(row);
        proof {
            assert forall|q: int| 0 <= q < query + 1 implies (
            #[trigger] rows::deep(mask@)[q]).len() == seq by {
                if q < query {
                    assert(rows::deep(before)[q].len() == seq);
                }
            }
            if arith::pure::<A>() {
                assert forall|q: int, k: int|
                    0 <= q < query + 1 && 0 <= k < seq implies #[trigger] rows::deep(mask@)[q][k]
                    == mask_of::<A>(q, k) by {
                    if q < query {
                        assert(rows::deep(before)[q][k] == mask_of::<A>(q, k));
                    }
                }
            }
        }
    }
    let flat = rows::join_rows(&mask);
    proof {
        rows::lemma_flatten_len(rows::deep(mask@), seq as int);
        if arith::pure::<A>() {
            assert forall|query: int, key: int|
                0 <= query < seq && 0 <= key < seq implies #[trigger] rows::row(
                flat@,
                query,
                seq as int,
            )[key] == mask_of::<A>(query, key) by {
                rows::lemma_flatten_row(rows::deep(mask@), seq as int, query);
                assert(rows::deep(mask@)[query][key] == mask_of::<A>(query, key));
            }
        }
    }
    flat
}

/// An utterance under way.
pub struct UtteranceView<S> {
    /// The newest position's hidden state and primary logits, once the talker has answered.
    pub pending: Option<(Seq<S>, Seq<S>)>,
    /// One text row per frame.
    pub trailing: Seq<Seq<S>>,
    /// The talker's next position.
    pub next_position: int,
    /// Frames emitted.
    pub frames: int,
    /// Their primary codes.
    pub history: Seq<u32>,
    /// Whether the model has stopped.
    pub finished: bool,
    /// Whether more text may follow.
    pub continuation: bool,
    /// Whether the end of text is among the text rows.
    pub text_finished: bool,
}

impl<S> UtteranceView<S> {
    /// That the next frame reads text that has not been given yet.
    pub open spec fn stalls(&self) -> bool {
        self.continuation && !self.text_finished && self.frames >= self.trailing.len()
    }

    /// That rows, answers and codes have their shapes.
    pub open spec fn wf(&self, hidden: int) -> bool {
        &&& rows::uniform(self.trailing, hidden)
        &&& self.history.len() == self.frames
        &&& self.frames <= self.next_position
        &&& forall|i: int|
            0 <= i < self.history.len() ==> #[trigger] self.history[i] < PRIMARY_CODE_VOCAB_SIZE
        &&& match self.pending {
            Some((state, logits)) => {
                &&& state.len() == hidden
                &&& logits.len() == PRIMARY_CODE_VOCAB_SIZE
            },
            None => true,
        }
    }

    /// The utterance after a frame with this primary code.
    pub open spec fn after_frame(&self, primary: u32) -> Self {
        UtteranceView {
            pending: None,
            next_position: self.next_position + 1,
            frames: self.frames + 1,
            history: self.history.push(primary),
            ..*self
        }
    }

    /// The utterance once the model has stopped.
    pub open spec fn stopped(&self) -> Self {
        UtteranceView { finished: true, ..*self }
    }

    /// The utterance once the talker has answered.
    pub open spec fn answered(&self, state: Seq<S>, logits: Seq<S>) -> Self {
        UtteranceView { pending: Some((state, logits)), ..*self }
    }

    /// The utterance with more text.
    pub open spec fn extended(&self, rows: Seq<Seq<S>>) -> Self {
        UtteranceView { trailing: self.trailing + rows, ..*self }
    }

    /// The utterance once the end of its text is announced.
    pub open spec fn closed_with(&self, eos: Seq<S>) -> Self {
        UtteranceView { trailing: self.trailing.push(eos), text_finished: true, ..*self }
    }
}

/// An utterance that has just begun.
pub open spec fn begun<S>(
    trailing: Seq<Seq<S>>,
    positions: int,
    start: UtteranceStart,
) -> UtteranceView<S> {
    UtteranceView {
        pending: None,
        trailing,
        next_position: positions,
        frames: 0,
        history: Seq::empty(),
        finished: false,
        continuation: start == UtteranceStart::Continuation,
        text_finished: start == UtteranceStart::Fresh,
    }
}

/// What a frame reads besides the utterance.
pub struct Engine<'a, Q: Quantized> {
    /// Width of the talker.
    pub hidden: int,
    /// Feedback by primary code.
    pub talker_codec: Seq<Q::Scalar>,
    /// Feedback by residual code.
    pub residual: Seq<&'a [Q::Scalar]>,
    /// The row read once the text is used up.
    pub tts_pad: Seq<Q::Scalar>,
    /// The microdecoder.
    pub config: MicrodecoderConfig<Q::Scalar>,
    /// Its weights.
    pub weights: MicrodecoderWeights<'a, Q::Scalar>,
    /// Its rotary rows.
    pub rope: RopeTable<Q>,
    /// Its packed route, where it runs on one.
    pub route: Option<PackedRoute<Q>>,
    /// How codes are selected.
    pub mode: SamplingMode,
}

/// That both stacks and the sampler compute functions of their arguments.
pub open spec fn exact_run<Q: Quantized, W: Widens<Q>>() -> bool {
    layer::exact::<Q>() && sampler::pure_wide::<Q, W>()
}

/// Why no primary code can be selected.
pub open spec fn talker_failure<Q: Quantized, W: Widens<Q>>(
    logits: Seq<Q::Scalar>,
    history: Seq<u32>,
    mode: SamplingMode,
    seed: u64,
) -> Option<SamplerError> {
    match sampler::first_bad::<Q>(logits, 0) {
        Some(index) => Some(SamplerError::NonFiniteLogit { index: index as usize }),
        None => match talker_choice::<Q, W>(logits, history, mode, seed) {
            Some(_) => None,
            None => Some(SamplerError::NoCandidate),
        },
    }
}

/// The primary code selected.
pub open spec fn talker_choice<Q: Quantized, W: Widens<Q>>(
    logits: Seq<Q::Scalar>,
    history: Seq<u32>,
    mode: SamplingMode,
    seed: u64,
) -> Option<int> {
    sampler::choice_of::<Q, W>(
        sampler::processed_of::<Q>(logits, history),
        mode,
        sampler::mixed(sampler::next_state(seed)),
    )
}

/// The generator's state after the primary code.
pub open spec fn talker_seed<Q: Quantized, W: Widens<Q>>(
    logits: Seq<Q::Scalar>,
    history: Seq<u32>,
    mode: SamplingMode,
    seed: u64,
) -> u64 {
    if sampler::first_bad::<Q>(logits, 0) is None && sampler::draws::<Q, W>(
        sampler::processed_of::<Q>(logits, history),
        mode,
    ) {
        sampler::next_state(seed)
    } else {
        seed
    }
}

/// One frame's codes.
pub open spec fn codes_of(primary: u32, residuals: Seq<usize>) -> Seq<u32> {
    Seq::new(
        1 + residuals.len(),
        |i: int|
            if i == 0 {
                primary
            } else {
                residuals[i - 1] as u32
            },
    )
}

impl<'a, Q: Quantized> Engine<'a, Q> {
    /// That every part has the shape the talker's width gives it.
    pub open spec fn fits(&self) -> bool {
        &&& self.shaped()
        &&& self.rope.wf()
        &&& self.rope.width() == self.config.head_dim
    }

    /// That tables and weights have the shapes the talker's width gives them.
    pub open spec fn shaped(&self) -> bool {
        &&& self.hidden == self.config.hidden_size
        &&& self.talker_codec.len() == PRIMARY_CODE_VOCAB_SIZE * self.hidden
        &&& self.residual.len() == RESIDUAL_DEPTHS
        &&& forall|i: int|
            0 <= i < RESIDUAL_DEPTHS ==> (#[trigger] self.residual[i])@.len() == RESIDUAL_VOCAB
                * self.hidden
        &&& self.tts_pad.len() == self.hidden
        &&& self.config.valid()
        &&& self.weights.fits(self.config, self.route is Some)
        &&& self.weights.talker_codec_embedding@.len() >= PRIMARY_CODE_VOCAB_SIZE * self.hidden
        &&& match self.route {
            Some(route) => route.fits(self.config),
            None => true,
        }
    }

    /// What the microdecoder reads for one frame.
    pub open spec fn read(&self, state: Seq<Q::Scalar>, primary: int) -> FrameInputs<'a, Q> {
        FrameInputs {
            config: self.config,
            rope: self.rope,
            weights: self.weights,
            route: self.route,
            talker_hidden: state,
            primary_code: primary as usize as int,
        }
    }

    /// The feedback row of the code in group `i`.
    pub open spec fn code_row(&self, i: int, code: u32) -> Seq<Q::Scalar> {
        if i == 0 {
            rows::row(self.talker_codec, code as int, self.hidden)
        } else {
            rows::row(self.residual[i - 1]@, code as int, self.hidden)
        }
    }

    /// The feedback rows of a frame.
    pub open spec fn code_rows(&self, codes: Seq<u32>) -> Seq<Seq<Q::Scalar>> {
        Seq::new(codes.len(), |i: int| self.code_row(i, codes[i]))
    }

    /// The text row the next frame reads.
    pub open spec fn text_row(&self, u: UtteranceView<Q::Scalar>) -> Seq<Q::Scalar> {
        if u.frames < u.trailing.len() {
            u.trailing[u.frames]
        } else {
            self.tts_pad
        }
    }

    /// What a call for a frame gives while codes are to be selected: the result, the utterance
    /// after it and the random state after it.
    pub open spec fn advances<W: Widens<Q>>(
        &self,
        u: UtteranceView<Q::Scalar>,
        seed: u64,
        result: Result<FrameStep<Q::Scalar>, GenerationError>,
        v: UtteranceView<Q::Scalar>,
        after: u64,
    ) -> bool {
        let (state, logits) = u.pending->0;
        let drawn = talker_seed::<Q, W>(logits, u.history, self.mode, seed);
        match talker_failure::<Q, W>(logits, u.history, self.mode, seed) {
            Some(error) => {
                &&& result == Err::<FrameStep<Q::Scalar>, _>(GenerationError::Sampler(error))
                &&& v == u
                &&& after == drawn
            },
            None => {
                let primary = talker_choice::<Q, W>(logits, u.history, self.mode, seed)->0;
                if primary == CODEC_EOS_TOKEN_ID {
                    &&& result matches Ok(FrameStep::Finished)
                    &&& v == u.stopped()
                    &&& after == drawn
                } else {
                    exists|residuals: Seq<usize>|
                        self.completes::<W>(u, drawn, primary, residuals, result, v, after)
                }
            },
        }
    }

    /// What follows the primary code: the residual codes, and the talker's next input.
    pub open spec fn completes<W: Widens<Q>>(
        &self,
        u: UtteranceView<Q::Scalar>,
        seed: u64,
        primary: int,
        residuals: Seq<usize>,
        result: Result<FrameStep<Q::Scalar>, GenerationError>,
        v: UtteranceView<Q::Scalar>,
        after: u64,
    ) -> bool {
        let (state, _) = u.pending->0;
        let read = self.read(state, primary);
        let depths = RESIDUAL_DEPTHS as int;
        &&& residuals.len() == depths
        &&& residuals::sampled::<Q, W>(read, residuals, self.mode, seed)
        &&& after == residuals::seed_at::<Q, W>(read, residuals, self.mode, seed, depths)
        &&& match residuals::first_failure::<Q, W>(read, residuals, self.mode, seed, depths) {
            Some(error) => {
                &&& result == Err::<FrameStep<Q::Scalar>, _>(GenerationError::Sampler(error))
                &&& v == u
            },
            None => {
                let codes = codes_of(primary as u32, residuals);
                &&& v == u.after_frame(primary as u32)
                &&& result matches Ok(FrameStep::Frame { frame, work }) && {
                    &&& frame.codes@ == codes
                    &&& work.count == 1
                    &&& work.first_position == u.next_position
                    &&& work.rows@ == talker::frame_input_of::<Q>(
                        self.code_rows(codes),
                        self.text_row(u),
                    )
                }
            },
        }
    }
}

} // verus!
