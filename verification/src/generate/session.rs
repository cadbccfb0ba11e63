//! The generator: one utterance at a time, one frame per call.
use vstd::prelude::*;
use vstd::slice::slice_to_vec;
use std::sync::Arc;
use crate::arith;
use crate::generate::error::GenerationError;
use crate::generate::model;
use crate::generate::model::{
    CodeFrame, Engine, FeedbackTables, FrameStep, ReferencePrompt, TalkerWork, UtteranceStart,
    UtteranceView,
};
use crate::generate::residuals::decode_residuals;
use crate::generate::route;
use crate::generate::route::{prepare_int8_route, Int8Route, RouteSettings};
use crate::generate::text_rows;
use crate::generate::text_rows::{ColdTextRows, FetchedRows, TextEmbeddingWeights};
use crate::ids;
use crate::microdecoder::frame::{MicrodecoderWeights, PackedRoute};
use crate::microdecoder::layer::FrameState;
use crate::microdecoder::{MicrodecoderConfig, RopeTable, RESIDUAL_DEPTHS, RESIDUAL_VOCAB};
use crate::prompt;
use crate::prompt::{
    assemble_prompt, copy_header, extract_prompt_text_ids, CloneMode, PromptAssemblyInput,
    PromptError, PromptHeader, PromptMode,
};
use crate::quant::Quantized;
use crate::rows;
use crate::rows::{copy_rows, join_rows, row_of};
use crate::sampler;
use crate::sampler::{QwenSampler, SamplingMode, Widens, CODEC_EOS_TOKEN_ID};
use crate::storage::{Artifact, Bits};
use crate::talker;
use crate::talker::{
    form_frame_input, TalkerConfig, TalkerLayerQuant, TalkerWeights, PRIMARY_CODE_VOCAB_SIZE,
};

verus! {

/// Everything a generator is made from.
pub struct QwenGeneratorConfig<'a, Q: Quantized, C: ColdTextRows<Q::Scalar>> {
    /// Talker geometry.
    pub talker_config: TalkerConfig<Q::Scalar>,
    /// Talker weights.
    pub talker_weights: TalkerWeights<'a, Q::Scalar>,
    /// Text embeddings and their projection.
    pub text: TextEmbeddingWeights<'a, Q::Scalar>,
    /// Where embeddings of appended text come from, if from anywhere.
    pub cold_rows: Option<&'a C>,
    /// Feedback tables.
    pub feedback: FeedbackTables<'a, Q::Scalar>,
    /// Microdecoder geometry.
    pub microdecoder_config: MicrodecoderConfig<Q::Scalar>,
    /// Microdecoder weights.
    pub microdecoder_weights: MicrodecoderWeights<'a, Q::Scalar>,
    /// Which prompt.
    pub prompt_mode: PromptMode,
    /// The header of every prompt.
    pub header: PromptHeader<Q::Scalar>,
    /// The row that ends a text.
    pub tts_eos: Vec<Q::Scalar>,
    /// The reference voice, where its codes condition the talker.
    pub reference: Option<ReferencePrompt<Q::Scalar>>,
    /// How codes are selected.
    pub sampling_mode: SamplingMode,
    /// Seed of the production draws; greedy selection never draws.
    pub seed: u64,
}

impl<'a, Q: Quantized, C: ColdTextRows<Q::Scalar>> QwenGeneratorConfig<'a, Q, C> {
    /// What a frame reads.
    pub open spec fn engine(
        &self,
        rope: RopeTable<Q>,
        route: Option<PackedRoute<Q>>,
    ) -> Engine<'a, Q> {
        Engine {
            hidden: self.talker_config.hidden_size as int,
            talker_codec: self.feedback.talker_codec@,
            residual: self.feedback.residual@,
            tts_pad: self.header.tts_pad@,
            config: self.microdecoder_config,
            weights: self.microdecoder_weights,
            rope,
            route,
            mode: self.sampling_mode,
        }
    }

    /// That tables, rows and projections agree with the talker's width. Where the microdecoder runs
    /// packed, only the norms of its layers are read.
    pub open spec fn sized(&self, packed: bool) -> bool {
        let hidden = self.talker_config.hidden_size as int;
        &&& self.text.fits(hidden)
        &&& self.tts_eos@.len() == hidden
        &&& self.header.tts_pad@.len() == hidden
        &&& self.feedback.talker_codec@.len() == PRIMARY_CODE_VOCAB_SIZE * hidden
        &&& self.feedback.residual@.len() == RESIDUAL_DEPTHS
        &&& forall|i: int|
            0 <= i < RESIDUAL_DEPTHS ==> (#[trigger] self.feedback.residual@[i])@.len()
                == RESIDUAL_VOCAB * hidden
        &&& self.microdecoder_config.valid()
        &&& self.microdecoder_config.hidden_size == hidden
        &&& self.microdecoder_weights.fits(self.microdecoder_config, packed)
        &&& self.microdecoder_weights.talker_codec_embedding@.len() >= PRIMARY_CODE_VOCAB_SIZE
            * hidden
    }

    /// That everything agrees with the talker's width, the packed route included.
    pub open spec fn fits(&self, route: Option<PackedRoute<Q>>) -> bool {
        &&& self.sized(route is Some)
        &&& match route {
            Some(route) => route.fits(self.microdecoder_config),
            None => true,
        }
    }

    /// That a microdecoder with layers is armed.
    pub open spec fn runs_packed<'e>(&self, settings: RouteSettings<'e, Q::Mode>) -> bool {
        settings.micro() && self.microdecoder_weights.layers@.len() > 0
    }

    /// That a generator can be made of this: whatever is armed can be packed, and everything
    /// agrees with the talker's width.
    pub open spec fn buildable<'e>(
        &self,
        settings: RouteSettings<'e, Q::Mode>,
        artifact: Option<&Artifact>,
    ) -> bool {
        &&& route::packable(
            settings,
            self.talker_config,
            self.talker_weights,
            self.microdecoder_config,
            self.microdecoder_weights,
            artifact,
        )
        &&& self.sized(self.runs_packed(settings))
    }

    /// The reference transcript with its wrapper.
    pub open spec fn reference_ids(&self) -> Option<Seq<u32>> {
        match self.reference {
            Some(reference) => Some(reference.wrapped_ids@),
            None => None,
        }
    }

    /// That a prompt for `n` tokens has countably many positions.
    pub open spec fn countable(&self, n: int) -> bool {
        let reference = match self.reference {
            Some(reference) => reference.wrapped_ids@.len() + reference.codec@.len(),
            None => 0,
        };
        self.header.role@.len() + self.header.codec_prefill@.len() + n + reference + 2
            <= usize::MAX
    }

    /// That a prompt is one that can be continued.
    pub open spec fn continuable(&self) -> bool {
        self.prompt_mode.clone_mode == CloneMode::XVector && !self.prompt_mode.non_streaming_mode
    }

    /// That `input` is what the prompt for `ids` is assembled from.
    pub open spec fn feeds(
        &self,
        fetched: text_rows::Embeddings<Q::Scalar>,
        ids: Seq<u32>,
        start: UtteranceStart,
        input: PromptAssemblyInput<Q::Scalar>,
    ) -> bool {
        let body = prompt::body_of(ids, prompt::target_suffix());
        &&& input.mode == self.prompt_mode
        &&& prompt::same_header(input.header, self.header)
        &&& input.tts_eos@ == self.tts_eos@
        &&& input.hold_tts_eos == (start == UtteranceStart::Continuation)
        &&& input.target_text@.len() == body.len()
        &&& arith::pure::<Q>() ==> rows::deep(input.target_text@) == self.text.states::<Q>(
            fetched,
            body,
        )
        &&& match (self.reference, input.reference_text, input.reference_codec) {
            (Some(reference), Some(text), Some(codec)) => {
                let transcript = prompt::body_of(
                    reference.wrapped_ids@,
                    prompt::reference_suffix(),
                );
                &&& text@.len() == transcript.len()
                &&& arith::pure::<Q>() ==> rows::deep(text@) == self.text.states::<Q>(
                    fetched,
                    transcript,
                )
                &&& rows::deep(codec@) == rows::deep(reference.codec@)
            },
            (None, None, None) => true,
            _ => false,
        }
    }

    /// The first token of a prompt that has no embedding.
    pub open spec fn first_uncovered(
        &self,
        fetched: text_rows::Embeddings<Q::Scalar>,
        ids: Seq<u32>,
    ) -> Option<u32> {
        let body = prompt::body_of(ids, prompt::target_suffix());
        match (self.text.first_uncovered(fetched, body), self.reference) {
            (Some(id), _) => Some(id),
            (None, Some(reference)) => self.text.first_uncovered(
                fetched,
                prompt::body_of(reference.wrapped_ids@, prompt::reference_suffix()),
            ),
            (None, None) => None,
        }
    }

    /// That `error` is why the prompt for `ids` cannot be had.
    pub open spec fn prompt_refused(
        &self,
        fetched: text_rows::Embeddings<Q::Scalar>,
        ids: Seq<u32>,
        start: UtteranceStart,
        error: PromptError,
    ) -> bool {
        ||| prompt::wrapper_refused(ids, self.reference_ids(), error)
        ||| {
            &&& self.unwraps(ids)
            &&& self.first_uncovered(fetched, ids) is None
            &&& exists|input: PromptAssemblyInput<Q::Scalar>|
                #![trigger input.refused(error)]
                self.feeds(fetched, ids, start, input) && input.refused(error)
        }
    }

    /// That text and transcript carry their wrappers.
    pub open spec fn unwraps(&self, ids: Seq<u32>) -> bool {
        &&& prompt::is_wrapped(ids, prompt::target_suffix())
        &&& self.reference_ids() matches Some(whole) ==> prompt::is_wrapped(
            whole,
            prompt::reference_suffix(),
        )
    }

    /// What an utterance that begins with `input` hands the talker, and what it keeps.
    pub open spec fn begins_with(
        &self,
        fetched: text_rows::Embeddings<Q::Scalar>,
        ids: Seq<u32>,
        start: UtteranceStart,
        input: PromptAssemblyInput<Q::Scalar>,
        work: TalkerWork<Q::Scalar>,
        u: UtteranceView<Q::Scalar>,
    ) -> bool {
        &&& self.feeds(fetched, ids, start, input)
        &&& input.header_fits()
        &&& prompt::first_mismatch(input.all_rows(), input.width()) is None
        &&& work.count == prompt::prefill_of::<Q>(input).len()
        &&& work.first_position == 0
        &&& work.rows@.len() == work.count * self.talker_config.hidden_size
        &&& arith::pure::<Q>() ==> work.rows@ == prompt::prefill_of::<Q>(input).flatten()
        &&& u == model::begun(input.trailing(), work.count as int, start)
    }

    /// What an utterance that begins with `ids` hands the talker, and what it keeps.
    pub open spec fn begins(
        &self,
        fetched: text_rows::Embeddings<Q::Scalar>,
        ids: Seq<u32>,
        start: UtteranceStart,
        work: TalkerWork<Q::Scalar>,
        u: UtteranceView<Q::Scalar>,
    ) -> bool {
        exists|input: PromptAssemblyInput<Q::Scalar>| #[trigger]
            self.begins_with(fetched, ids, start, input, work, u)
    }
}

/// Whether appended text can be embedded, and what is fetched for it.
pub open spec fn fetches<'a, S, C: ColdTextRows<S>>(
    text: TextEmbeddingWeights<'a, S>,
    source: Option<&'a C>,
    before: text_rows::Embeddings<S>,
    ids: Seq<u32>,
    result: Result<(), GenerationError>,
    after: text_rows::Embeddings<S>,
) -> bool {
    let lacking = text_rows::uncovered_of(text, before, ids);
    if lacking.len() == 0 {
        result is Ok && after == before
    } else {
        exists|missing: Seq<u32>|
            {
                &&& #[trigger] ids::distinct_of(missing, lacking)
                &&& match source {
                    None => {
                        &&& result == Err::<(), _>(
                            GenerationError::NoColdRows {
                                count: missing.len() as usize,
                                first: missing[0],
                            },
                        )
                        &&& after == before
                    },
                    Some(rows) => exists|reply: Result<(Vec<u32>, Vec<S>), GenerationError>|
                        {
                            &&& #[trigger] text_rows::may_reply::<S, C>(rows, missing, reply)
                            &&& takes_in(
                                before,
                                missing,
                                reply,
                                text.embed_width as int,
                                result,
                                after,
                            )
                        },
                }
            }
    }
}

/// What a source's reply leads to.
pub open spec fn takes_in<S>(
    before: text_rows::Embeddings<S>,
    asked: Seq<u32>,
    reply: Result<(Vec<u32>, Vec<S>), GenerationError>,
    width: int,
    result: Result<(), GenerationError>,
    after: text_rows::Embeddings<S>,
) -> bool {
    match reply {
        Err(error) => result == Err::<(), _>(error) && after == before,
        Ok((ids, data)) => if ids@.len() * width != data@.len() {
            &&& result == Err::<(), _>(
                GenerationError::ColdRowShape {
                    rows: (data@.len() as int / width) as usize,
                    ids: ids@.len() as usize,
                    width: width as usize,
                },
            )
            &&& after == before
        } else {
            match text_rows::left_out(asked, ids@) {
                Some(id) => {
                    &&& result == Err::<(), _>(GenerationError::ColdRowMissing { id })
                    &&& after == before
                },
                None => {
                    &&& result is Ok
                    &&& after == text_rows::with_reply(
                        before,
                        ids@,
                        data@,
                        width,
                        ids@.len() as int,
                    )
                },
            }
        },
    }
}

/// An utterance under way: two are equal where every frame to come is.
#[derive(Clone, Debug, PartialEq)]
pub struct UtteranceState<S> {
    pending: Option<(Vec<S>, Vec<S>)>,
    trailing_text_hidden: Vec<Vec<S>>,
    next_position: usize,
    frames_emitted: usize,
    group_zero_history: Vec<u32>,
    finished: bool,
    continuation: bool,
    text_finished: bool,
}

impl<S> UtteranceState<S> {
    /// What the utterance holds.
    pub closed spec fn view(&self) -> UtteranceView<S> {
        UtteranceView {
            pending: match self.pending {
                Some((state, logits)) => Some((state@, logits@)),
                None => None,
            },
            trailing: rows::deep(self.trailing_text_hidden@),
            next_position: self.next_position as int,
            frames: self.frames_emitted as int,
            history: self.group_zero_history@,
            finished: self.finished,
            continuation: self.continuation,
            text_finished: self.text_finished,
        }
    }
}

/// What a shared route is.
pub open spec fn shared<Q: Quantized>(int8: Option<Arc<Int8Route<Q>>>) -> Option<Int8Route<Q>> {
    match int8 {
        Some(route) => Some(*route),
        None => None,
    }
}

/// The generator.
pub struct QwenGenerator<'a, Q: Quantized, C: ColdTextRows<Q::Scalar>> {
    config: QwenGeneratorConfig<'a, Q, C>,
    rope: RopeTable<Q>,
    int8: Option<Arc<Int8Route<Q>>>,
    fetched: FetchedRows<Q::Scalar>,
    sampler: QwenSampler,
    frame_state: FrameState<Q>,
    cached: usize,
    utterance: Option<UtteranceState<Q::Scalar>>,
}

impl<'a, Q: Quantized, C: ColdTextRows<Q::Scalar>> QwenGenerator<'a, Q, C> {
    /// What the generator was made from.
    pub closed spec fn config(&self) -> QwenGeneratorConfig<'a, Q, C> {
        self.config
    }

    /// What a frame reads besides the utterance.
    pub closed spec fn engine(&self) -> Engine<'a, Q> {
        self.config.engine(self.rope, route::route_of(self.int8()))
    }

    /// The eight-bit route, where there is one.
    pub closed spec fn int8(&self) -> Option<Int8Route<Q>> {
        shared(self.int8)
    }

    /// The embeddings fetched for appended text.
    pub closed spec fn fetched(&self) -> text_rows::Embeddings<Q::Scalar> {
        self.fetched@
    }

    /// The state of the random generator.
    pub closed spec fn seed(&self) -> u64 {
        self.sampler.state()
    }

    /// Positions handed to the talker since the last prompt.
    pub closed spec fn positions(&self) -> int {
        self.cached as int
    }

    /// The utterance under way.
    pub closed spec fn utterance(&self) -> Option<UtteranceView<Q::Scalar>> {
        match self.utterance {
            Some(utterance) => Some(utterance.view()),
            None => None,
        }
    }

    /// That every part has its shape.
    pub closed spec fn wf(&self) -> bool {
        let hidden = self.config.talker_config.hidden_size as int;
        &&& self.config.text.fits(hidden)
        &&& self.config.tts_eos@.len() == hidden
        &&& self.engine().fits()
        &&& self.fetched.wf(self.config.text.embed_width as int)
        &&& self.frame_state.serves(self.config.microdecoder_config)
        &&& match self.utterance {
            Some(utterance) => {
                &&& utterance.view().wf(hidden)
                &&& self.cached == utterance.next_position
            },
            None => true,
        }
    }

    /// That nothing but the utterance, the fetched rows and the random state may differ.
    pub open spec fn same_voice(&self, other: Self) -> bool {
        &&& self.config() == other.config()
        &&& self.engine() == other.engine()
        &&& self.int8() == other.int8()
    }

    /// What holds of every well-formed generator.
    pub proof fn lemma_wf(&self)
        requires
            self.wf(),
        ensures
            self.engine().fits(),
            self.engine().hidden == self.config().talker_config.hidden_size,
            self.config().text.fits(self.engine().hidden),
            self.config().tts_eos@.len() == self.engine().hidden,
            self.utterance() matches Some(u) ==> u.wf(self.engine().hidden) && self.positions()
                == u.next_position,
    {
    }

    /// That a generator has just been made: nothing is under way, nothing fetched and nothing
    /// drawn, and frames read the configured parts on the generator's own route.
    pub open spec fn made_from(&self, config: QwenGeneratorConfig<'a, Q, C>) -> bool {
        &&& self.wf()
        &&& self.config() == config
        &&& exists|rope: RopeTable<Q>|
            {
                &&& rope.wf()
                &&& rope.width() == config.microdecoder_config.head_dim
                &&& arith::pure::<Q>() ==> rope.turns(config.microdecoder_config)
                &&& self.engine() == #[trigger] config.engine(rope, route::route_of(self.int8()))
            }
        &&& self.utterance() is None
        &&& self.fetched() == Map::<u32, Seq<Q::Scalar>>::empty()
        &&& self.seed() == config.seed
        &&& self.positions() == 0
    }

    /// A generator on an eight-bit route prepared before, or on the plain weights.
    pub fn new_with_prepared_int8(
        config: QwenGeneratorConfig<'a, Q, C>,
        int8: Option<Arc<Int8Route<Q>>>,
    ) -> (generator: Self)
        requires
            config.fits(route::route_of(shared(int8))),
        ensures
            generator.made_from(config),
            generator.int8() == shared(int8),
    {
        let rope = RopeTable::<Q>::new(&config.microdecoder_config);
        let frame_state = FrameState::<Q>::new(&config.microdecoder_config);
        let sampler = QwenSampler::seeded(config.seed);
        let generator = QwenGenerator {
            config,
            rope,
            int8,
            fetched: FetchedRows::new(),
            sampler,
            frame_state,
            cached: 0,
            utterance: None,
        };
        proof {
            let engine = config.engine(rope, route::route_of(shared(int8)));
            assert(generator.engine() == engine);
            assert(engine.fits());
        }
        generator
    }

    /// The eight-bit route, where there is one.
    pub fn int8_route(&self) -> (route: Option<&Int8Route<Q>>)
        ensures
            match route {
                Some(route) => self.int8() == Some(*route),
                None => self.int8() is None,
            },
    {
        match &self.int8 {
            Some(route) => Some(&**route),
            None => None,
        }
    }

    /// The packed layers that the talker is to run on, where the talker is armed.
    pub fn packed_talker(&self) -> (layers: Option<&[TalkerLayerQuant<Q>]>)
        ensures
            (layers is Some) == (self.int8() matches Some(route) && route.talker_layers().len()
                > 0),
            layers matches Some(layers) ==> layers@ == self.int8()->0.talker_layers(),
    {
        match &self.int8 {
            Some(route) => {
                let layers = route.talker();
                if layers.len() == 0 {
                    None
                } else {
                    Some(layers)
                }
            },
            None => None,
        }
    }

    /// Positions handed to the talker since the last prompt.
    pub fn cached_positions(&self) -> (n: usize)
        ensures
            n == self.positions(),
    {
        self.cached
    }

    /// Whether a prompt for `n` tokens has countably many positions.
    pub fn is_countable(&self, n: usize) -> (ok: bool)
        ensures
            ok == self.config().countable(n as int),
    {
        self.config.is_countable(n)
    }

    /// Whether the talker has yet to answer what it was given.
    pub fn awaits_talker(&self) -> (waits: bool)
        ensures
            waits == (self.utterance() matches Some(u) && u.pending is None),
    {
        match &self.utterance {
            Some(utterance) => utterance.pending.is_none(),
            None => false,
        }
    }

    /// The utterance under way, where there is one.
    pub fn utterance_state(&self) -> (state: Option<&UtteranceState<Q::Scalar>>)
        ensures
            match state {
                Some(state) => self.utterance() == Some(state@),
                None => self.utterance() is None,
            },
    {
        self.utterance.as_ref()
    }

    /// Keeps an utterance that has just begun.
    fn begin(&mut self, trailing: Vec<Vec<Q::Scalar>>, positions: usize, start: UtteranceStart)
        requires
            old(self).wf(),
            rows::uniform(rows::deep(trailing@), old(self).engine().hidden),
        ensures
            final(self).wf(),
            final(self).same_voice(*old(self)),
            final(self).fetched() == old(self).fetched(),
            final(self).seed() == old(self).seed(),
            final(self).positions() == positions,
            final(self).utterance() == Some(
                model::begun(rows::deep(trailing@), positions as int, start),
            ),
    {
        let continuation = match start {
            UtteranceStart::Continuation => true,
            UtteranceStart::Fresh => false,
        };
        self.cached = positions;
        self.utterance = Some(
            UtteranceState {
                pending: None,
                trailing_text_hidden: trailing,
                next_position: positions,
                frames_emitted: 0,
                group_zero_history: Vec::new(),
                finished: false,
                continuation,
                text_finished: !continuation,
            },
        );
    }

    /// Begins an utterance from a prompt assembled elsewhere.
    pub fn begin_with_prefill(
        &mut self,
        prefill: &[Q::Scalar],
        seq: usize,
        trailing_text_hidden: Vec<Vec<Q::Scalar>>,
    ) -> (result: Result<TalkerWork<Q::Scalar>, GenerationError>)
        requires
            old(self).wf(),
            rows::uniform(rows::deep(trailing_text_hidden@), old(self).engine().hidden),
        ensures
            final(self).wf(),
            final(self).same_voice(*old(self)),
            final(self).fetched() == old(self).fetched(),
            final(self).seed() == old(self).seed(),
            match result {
                Ok(work) => {
                    &&& seq > 0
                    &&& prefill@.len() == seq * old(self).engine().hidden
                    &&& work.rows@ == prefill@
                    &&& work.count == seq
                    &&& work.first_position == 0
                    &&& final(self).positions() == seq
                    &&& final(self).utterance() == Some(
                        model::begun(
                            rows::deep(trailing_text_hidden@),
                            seq as int,
                            UtteranceStart::Fresh,
                        ),
                    )
                },
                Err(GenerationError::PrefillShape { hidden, values, seq: rows }) => {
                    &&& seq == 0 || prefill@.len() != seq * old(self).engine().hidden
                    &&& hidden == old(self).engine().hidden
                    &&& values == prefill@.len()
                    &&& rows == seq
                    &&& *final(self) == *old(self)
                },
                Err(_) => false,
            },
    {
        let hidden: usize = self.config.talker_config.hidden_size;
        let values: usize = prefill.len();
        let fits = match seq.checked_mul(hidden) {
            Some(expected) => seq > 0 && expected == values,
            None => false,
        };
        if !fits {
            return Err(GenerationError::PrefillShape { hidden, values, seq });
        }
        self.begin(trailing_text_hidden, seq, UtteranceStart::Fresh);
        Ok(TalkerWork { rows: slice_to_vec(prefill), count: seq, first_position: 0 })
    }

    /// Begins an utterance from a prompt assembled elsewhere that ends with the inputs of frames
    /// emitted before, given their primary codes.
    pub fn begin_with_replay(
        &mut self,
        prefill: &[Q::Scalar],
        seq: usize,
        trailing_text_hidden: Vec<Vec<Q::Scalar>>,
        primary_codes: Vec<u32>,
    ) -> (result: Result<TalkerWork<Q::Scalar>, GenerationError>)
        requires
            old(self).wf(),
            rows::uniform(rows::deep(trailing_text_hidden@), old(self).engine().hidden),
            primary_codes@.len() <= seq,
            forall|i: int|
                0 <= i < primary_codes@.len() ==> #[trigger] primary_codes@[i]
                    < PRIMARY_CODE_VOCAB_SIZE,
        ensures
            final(self).wf(),
            final(self).same_voice(*old(self)),
            final(self).fetched() == old(self).fetched(),
            final(self).seed() == old(self).seed(),
            match result {
                Ok(work) => {
                    &&& seq > 0
                    &&& prefill@.len() == seq * old(self).engine().hidden
                    &&& work.rows@ == prefill@
                    &&& work.count == seq
                    &&& work.first_position == 0
                    &&& final(self).positions() == seq
                    &&& final(self).utterance() == Some(
                        UtteranceView {
                            frames: primary_codes@.len() as int,
                            history: primary_codes@,
                            ..model::begun(
                                rows::deep(trailing_text_hidden@),
                                seq as int,
                                UtteranceStart::Fresh,
                            )
                        },
                    )
                },
                Err(GenerationError::PrefillShape { hidden, values, seq: rows }) => {
                    &&& seq == 0 || prefill@.len() != seq * old(self).engine().hidden
                    &&& hidden == old(self).engine().hidden
                    &&& values == prefill@.len()
                    &&& rows == seq
                    &&& *final(self) == *old(self)
                },
                Err(_) => false,
            },
    {
        let work = match self.begin_with_prefill(prefill, seq, trailing_text_hidden) {
            Ok(work) => work,
            Err(error) => {
                return Err(error);
            },
        };
        if let Some(mut utterance) = self.utterance.take() {
            utterance.frames_emitted = primary_codes.len();
            utterance.group_zero_history = primary_codes;
            self.utterance = Some(utterance);
        }
        Ok(work)
    }

    /// Begins an utterance: takes the text out of its wrapper, embeds and projects it, and
    /// assembles the prompt.
    ///
    /// Only a streaming prompt on a speaker vector can be continued. Whatever was under way is
    /// over, even where the new prompt cannot be had.
    pub fn begin_utterance(&mut self, token_ids: &[u32], start: UtteranceStart) -> (result: Result<
        TalkerWork<Q::Scalar>,
        GenerationError,
    >)
        requires
            old(self).wf(),
            old(self).config().countable(token_ids@.len() as int),
        ensures
            final(self).wf(),
            final(self).same_voice(*old(self)),
            final(self).fetched() == old(self).fetched(),
            final(self).seed() == old(self).seed(),
            (result matches Err(GenerationError::ContinuationRejected)) == (start
                == UtteranceStart::Continuation && !old(self).config().continuable()),
            match result {
                Ok(work) => {
                    &&& old(self).config().unwraps(token_ids@)
                    &&& old(self).config().first_uncovered(old(self).fetched(), token_ids@) is None
                    &&& final(self).positions() == work.count
                    &&& final(self).utterance() is Some
                    &&& old(self).config().begins(
                        old(self).fetched(),
                        token_ids@,
                        start,
                        work,
                        final(self).utterance()->0,
                    )
                },
                Err(GenerationError::ContinuationRejected) => *final(self) == *old(self),
                Err(GenerationError::UngatheredToken { id }) => {
                    &&& old(self).config().unwraps(token_ids@)
                    &&& old(self).config().first_uncovered(old(self).fetched(), token_ids@) == Some(
                        id,
                    )
                    &&& final(self).utterance() is None
                    &&& final(self).positions() == old(self).positions()
                },
                Err(GenerationError::Prompt(error)) => {
                    &&& old(self).config().prompt_refused(
                        old(self).fetched(),
                        token_ids@,
                        start,
                        error,
                    )
                    &&& final(self).utterance() is None
                    &&& final(self).positions() == old(self).positions()
                },
                Err(_) => false,
            },
    {
        let continued = match start {
            UtteranceStart::Continuation => true,
            UtteranceStart::Fresh => false,
        };
        let xvector = match self.config.prompt_mode.clone_mode {
            CloneMode::XVector => true,
            CloneMode::Icl => false,
        };
        if continued && (!xvector || !self.config.prompt_mode.streaming()) {
            return Err(GenerationError::ContinuationRejected);
        }
        self.utterance = None;
        let reference_wrapped = match &self.config.reference {
            Some(reference) => Some(reference.wrapped_ids.as_slice()),
            None => None,
        };
        let extracted = match extract_prompt_text_ids(token_ids, reference_wrapped) {
            Ok(extracted) => extracted,
            Err(error) => {
                return Err(GenerationError::Prompt(error));
            },
        };
        proof {
            prompt::law_body_is_unwrapped(extracted.target@, prompt::target_suffix());
            if extracted.reference is Some {
                prompt::law_body_is_unwrapped(
                    extracted.reference->0@,
                    prompt::reference_suffix(),
                );
            }
        }
        let target_text = match self.config.text.project_text_ids::<Q>(
            &self.fetched,
            extracted.target.as_slice(),
        ) {
            Ok(states) => states,
            Err(error) => {
                return Err(error);
            },
        };
        let reference_text = match &extracted.reference {
            Some(body) => match self.config.text.project_text_ids::<Q>(
                &self.fetched,
                body.as_slice(),
            ) {
                Ok(states) => Some(states),
                Err(error) => {
                    return Err(error);
                },
            },
            None => None,
        };
        let reference_codec = match &self.config.reference {
            Some(reference) => Some(copy_rows(&reference.codec)),
            None => None,
        };
        let input = PromptAssemblyInput {
            mode: self.config.prompt_mode,
            header: copy_header(&self.config.header),
            target_text,
            reference_text,
            reference_codec,
            tts_eos: slice_to_vec(self.config.tts_eos.as_slice()),
            hold_tts_eos: continued,
        };
        let ghost given = input;
        proof {
            assert(rows::deep(input.header.role@).len() == rows::deep(
                self.config.header.role@,
            ).len());
            assert(rows::deep(input.header.codec_prefill@).len() == rows::deep(
                self.config.header.codec_prefill@,
            ).len());
            if input.reference_codec is Some {
                assert(rows::deep(input.reference_codec->0@).len() == rows::deep(
                    self.config.reference->0.codec@,
                ).len());
            }
            assert(self.config.unwraps(token_ids@));
            assert(self.config.first_uncovered(self.fetched@, token_ids@) is None);
            assert(self.config.feeds(self.fetched@, token_ids@, start, input));
        }
        let assembly = match assemble_prompt::<Q>(input) {
            Ok(assembly) => assembly,
            Err(error) => {
                proof {
                    assert(given.refused(error));
                }
                return Err(GenerationError::Prompt(error));
            },
        };
        let seq: usize = assembly.prefill.len();
        let rows = join_rows(&assembly.prefill);
        proof {
            rows::lemma_flatten_len(rows::deep(assembly.prefill@), given.width());
            prompt::lemma_trailing_is_uniform(given);
        }
        let work = TalkerWork { rows, count: seq, first_position: 0 };
        self.begin(assembly.trailing_text_hidden, seq, start);
        proof {
            assert(old(self).config().begins_with(
                old(self).fetched(),
                token_ids@,
                start,
                given,
                work,
                self.utterance()->0,
            ));
            assert(old(self).config().begins(
                old(self).fetched(),
                token_ids@,
                start,
                work,
                self.utterance()->0,
            ));
        }
        Ok(work)
    }

    /// Takes in the talker's answer: the newest position's hidden state and primary logits.
    pub fn park(&mut self, hidden: Vec<Q::Scalar>, logits: Vec<Q::Scalar>)
        requires
            old(self).wf(),
            old(self).utterance() matches Some(u) && u.pending is None,
            hidden@.len() == old(self).engine().hidden,
            logits@.len() == PRIMARY_CODE_VOCAB_SIZE,
        ensures
            final(self).wf(),
            final(self).same_voice(*old(self)),
            final(self).fetched() == old(self).fetched(),
            final(self).seed() == old(self).seed(),
            final(self).positions() == old(self).positions(),
            final(self).utterance() == Some(
                old(self).utterance()->0.answered(hidden@, logits@),
            ),
    {
        match self.utterance.take() {
            Some(mut utterance) => {
                utterance.pending = Some((hidden, logits));
                self.utterance = Some(utterance);
            },
            None => {},
        }
    }

    /// Makes every token of appended text embeddable, asking the source for those that are not.
    fn ensure_text_rows(&mut self, ids: &[u32]) -> (result: Result<(), GenerationError>)
        requires
            old(self).wf(),
        ensures
            final(self).wf(),
            final(self).same_voice(*old(self)),
            final(self).seed() == old(self).seed(),
            final(self).positions() == old(self).positions(),
            final(self).utterance() == old(self).utterance(),
            fetches::<Q::Scalar, C>(
                old(self).config().text,
                old(self).config().cold_rows,
                old(self).fetched(),
                ids@,
                result,
                final(self).fetched(),
            ),
    {
        let missing = self.config.text.missing(&self.fetched, ids);
        let ghost lacking = text_rows::uncovered_of(self.config.text, self.fetched@, ids@);
        proof {
            if missing@.len() == 0 && lacking.len() > 0 {
                assert(lacking.contains(lacking[0]));
                assert(missing@.contains(lacking[0]));
            }
            if missing@.len() > 0 && lacking.len() == 0 {
                assert(missing@.contains(missing@[0]));
                assert(lacking.contains(missing@[0]));
            }
        }
        if missing.len() == 0 {
            return Ok(());
        }
        let source = match self.config.cold_rows {
            Some(source) => source,
            None => {
                return Err(
                    GenerationError::NoColdRows { count: missing.len(), first: missing[0] },
                );
            },
        };
        let asked = missing.as_slice();
        let reply = source.gather_rows(asked);
        let ghost answer = reply;
        proof {
            assert(call_ensures(
                <C as ColdTextRows<Q::Scalar>>::gather_rows,
                (source, asked),
                answer,
            ));
            assert(text_rows::may_reply::<Q::Scalar, C>(source, missing@, answer));
        }
        match reply {
            Err(error) => Err(error),
            Ok((got, data)) => self.fetched.take_in(
                missing.as_slice(),
                got.as_slice(),
                data.as_slice(),
                self.config.text.embed_width,
            ),
        }
    }

    /// Appends text to an utterance that takes more.
    ///
    /// Its rows join those that trail the prompt, and each is read by the frame at its own index:
    /// no position moves.
    pub fn append_text(&mut self, token_ids: &[u32]) -> (result: Result<(), GenerationError>)
        requires
            old(self).wf(),
        ensures
            final(self).wf(),
            final(self).same_voice(*old(self)),
            final(self).seed() == old(self).seed(),
            final(self).positions() == old(self).positions(),
            result is Err ==> final(self).utterance() == old(self).utterance(),
            match old(self).utterance() {
                None => {
                    &&& result matches Err(GenerationError::NotBegun { call }) && call@
                        == "append_text"@
                    &&& final(self).fetched() == old(self).fetched()
                },
                Some(u) => {
                    let body = prompt::body_of(token_ids@, prompt::target_suffix());
                    if u.finished {
                        &&& result matches Err(GenerationError::AppendAfterEos)
                        &&& final(self).fetched() == old(self).fetched()
                    } else if !u.continuation {
                        &&& result matches Err(GenerationError::AppendToFresh)
                        &&& final(self).fetched() == old(self).fetched()
                    } else if u.text_finished {
                        &&& result matches Err(GenerationError::AppendAfterFinish)
                        &&& final(self).fetched() == old(self).fetched()
                    } else if !prompt::is_wrapped(token_ids@, prompt::target_suffix()) {
                        &&& result matches Err(GenerationError::Prompt(error))
                            && prompt::wrapper_refused(token_ids@, None, error)
                        &&& final(self).fetched() == old(self).fetched()
                    } else {
                        &&& fetches::<Q::Scalar, C>(
                            old(self).config().text,
                            old(self).config().cold_rows,
                            old(self).fetched(),
                            body,
                            result,
                            final(self).fetched(),
                        )
                        &&& result is Ok ==> {
                            &&& final(self).utterance() is Some
                            &&& final(self).utterance()->0.trailing.len() == u.trailing.len()
                                + body.len()
                            &&& arith::pure::<Q>() ==> final(self).utterance()->0 == u.extended(
                                old(self).config().text.states::<Q>(final(self).fetched(), body),
                            )
                        }
                    }
                },
            },
    {
        match &self.utterance {
            None => {
                return Err(GenerationError::NotBegun { call: "append_text" });
            },
            Some(utterance) => {
                if utterance.finished {
                    return Err(GenerationError::AppendAfterEos);
                }
                if !utterance.continuation {
                    return Err(GenerationError::AppendToFresh);
                }
                if utterance.text_finished {
                    return Err(GenerationError::AppendAfterFinish);
                }
            },
        }
        let extracted = match extract_prompt_text_ids(token_ids, None) {
            Ok(extracted) => extracted,
            Err(error) => {
                return Err(GenerationError::Prompt(error));
            },
        };
        let body = extracted.target;
        proof {
            prompt::law_body_is_unwrapped(body@, prompt::target_suffix());
            assert(prompt::is_wrapped(token_ids@, prompt::target_suffix()));
        }
        match self.ensure_text_rows(body.as_slice()) {
            Ok(()) => {},
            Err(error) => {
                return Err(error);
            },
        }
        proof {
            lemma_fetched_covers::<Q::Scalar, C>(
                self.config.text,
                self.config.cold_rows,
                old(self).fetched(),
                body@,
                self.fetched@,
            );
        }
        let mut states = match self.config.text.project_text_ids::<Q>(
            &self.fetched,
            body.as_slice(),
        ) {
            Ok(states) => states,
            Err(error) => {
                return Err(error);
            },
        };
        let ghost added = rows::deep(states@);
        match self.utterance.take() {
            Some(mut utterance) => {
                let ghost before = utterance.view();
                utterance.trailing_text_hidden.append(&mut states);
                proof {
                    assert(rows::deep(utterance.trailing_text_hidden@) =~= before.trailing + added);
                    rows::lemma_uniform_concat(
                        before.trailing,
                        added,
                        self.config.talker_config.hidden_size as int,
                    );
                    assert(utterance.view() == before.extended(added));
                }
                self.utterance = Some(utterance);
            },
            None => {},
        }
        Ok(())
    }

    /// Announces the end of the text.
    pub fn finish_text(&mut self) -> (result: Result<(), GenerationError>)
        requires
            old(self).wf(),
        ensures
            final(self).wf(),
            final(self).same_voice(*old(self)),
            final(self).seed() == old(self).seed(),
            final(self).fetched() == old(self).fetched(),
            final(self).positions() == old(self).positions(),
            match old(self).utterance() {
                None => {
                    &&& result matches Err(GenerationError::NotBegun { call }) && call@
                        == "finish_text"@
                    &&& final(self).utterance() is None
                },
                Some(u) => if !u.continuation {
                    &&& result matches Err(GenerationError::FinishFresh)
                    &&& final(self).utterance() == Some(u)
                } else if u.text_finished {
                    &&& result matches Err(GenerationError::FinishTwice)
                    &&& final(self).utterance() == Some(u)
                } else {
                    &&& result is Ok
                    &&& final(self).utterance() == Some(
                        u.closed_with(old(self).config().tts_eos@),
                    )
                },
            },
    {
        match &self.utterance {
            None => {
                return Err(GenerationError::NotBegun { call: "finish_text" });
            },
            Some(utterance) => {
                if !utterance.continuation {
                    return Err(GenerationError::FinishFresh);
                }
                if utterance.text_finished {
                    return Err(GenerationError::FinishTwice);
                }
            },
        }
        match self.utterance.take() {
            Some(mut utterance) => {
                let ghost before = utterance.view();
                let eos = slice_to_vec(self.config.tts_eos.as_slice());
                utterance.trailing_text_hidden.push(eos);
                utterance.text_finished = true;
                proof {
                    let eos = self.config.tts_eos@;
                    assert(rows::deep(utterance.trailing_text_hidden@) =~= before.trailing.push(
                        eos,
                    ));
                    assert(rows::uniform(seq![eos], eos.len() as int));
                    assert(before.trailing.push(eos) =~= before.trailing + seq![eos]);
                    rows::lemma_uniform_concat(before.trailing, seq![eos], eos.len() as int);
                }
                self.utterance = Some(utterance);
            },
            None => {},
        }
        Ok(())
    }
}

impl<'a, Q: Quantized + Bits, C: ColdTextRows<Q::Scalar>> QwenGenerator<'a, Q, C> {
    /// A generator on the route that the process decides on: the plain weights where it is not
    /// armed, and else the armed stacks packed from their weights.
    pub fn new<'e>(
        config: QwenGeneratorConfig<'a, Q, C>,
        settings: &RouteSettings<'e, Q::Mode>,
    ) -> (generator: Self)
        requires
            config.buildable(*settings, None),
        ensures
            generator.made_from(config),
            generator.routed(*settings, None),
    {
        Self::new_with_artifact(config, settings, None)
    }

    /// That the generator's route is the one that the settings ask for.
    pub open spec fn routed<'e>(
        &self,
        settings: RouteSettings<'e, Q::Mode>,
        artifact: Option<&Artifact>,
    ) -> bool {
        &&& (self.int8() is Some) == settings.armed
        &&& self.int8() matches Some(int8) ==> route::prepared::<Q>(
            settings,
            self.config().talker_config,
            self.config().talker_weights,
            self.config().microdecoder_config,
            self.config().microdecoder_weights,
            artifact,
            int8,
        )
    }

    /// [`QwenGenerator::new`] with the artifact that the weights come from: where that is read and
    /// holds an armed layer or head packed, it is taken from there.
    pub fn new_with_artifact<'e>(
        config: QwenGeneratorConfig<'a, Q, C>,
        settings: &RouteSettings<'e, Q::Mode>,
        artifact: Option<&Artifact>,
    ) -> (generator: Self)
        requires
            config.buildable(*settings, artifact),
        ensures
            generator.made_from(config),
            generator.routed(*settings, artifact),
    {
        let int8 = match prepare_int8_route::<Q>(
            settings,
            &config.talker_config,
            &config.talker_weights,
            &config.microdecoder_config,
            &config.microdecoder_weights,
            artifact,
        ) {
            Some(route) => Some(Arc::new(route)),
            None => None,
        };
        proof {
            if let Some(packed) = route::route_of(shared(int8)) {
                let held = shared(int8)->0;
                assert forall|i: int| 0 <= i < packed.layers.len() implies (
                #[trigger] packed.layers[i]).fits(config.microdecoder_config) by {
                    assert(held.micro_layers()[i].fits(config.microdecoder_config));
                }
                assert(packed.fits(config.microdecoder_config));
            }
        }
        Self::new_with_prepared_int8(config, int8)
    }
}

/// The feedback rows of a frame.
fn feedback_rows<'a, Q: Quantized>(
    feedback: &FeedbackTables<'a, Q::Scalar>,
    hidden: usize,
    codes: &Vec<u32>,
    Ghost(engine): Ghost<Engine<'a, Q>>,
) -> (states: Vec<Vec<Q::Scalar>>)
    requires
        engine.fits(),
        engine.hidden == hidden,
        engine.talker_codec == feedback.talker_codec@,
        engine.residual == feedback.residual@,
        codes@.len() == RESIDUAL_DEPTHS + 1,
        codes@[0] < PRIMARY_CODE_VOCAB_SIZE,
        forall|d: int| 1 <= d <= RESIDUAL_DEPTHS ==> #[trigger] codes@[d] < RESIDUAL_VOCAB,
    ensures
        rows::deep(states@) == engine.code_rows(codes@),
        rows::uniform(rows::deep(states@), hidden as int),
{
    let mut states: Vec<Vec<Q::Scalar>> = Vec::new();
    for d in 0..RESIDUAL_DEPTHS + 1
        invariant
            engine.fits(),
            engine.hidden == hidden,
            engine.talker_codec == feedback.talker_codec@,
            engine.residual == feedback.residual@,
            codes@.len() == RESIDUAL_DEPTHS + 1,
            codes@[0] < PRIMARY_CODE_VOCAB_SIZE,
            forall|e: int| 1 <= e <= RESIDUAL_DEPTHS ==> #[trigger] codes@[e] < RESIDUAL_VOCAB,
            states@.len() == d,
            forall|e: int|
                0 <= e < d ==> {
                    &&& (#[trigger] states@[e])@ == engine.code_row(e, codes@[e])
                    &&& states@[e]@.len() == hidden
                },
    {
        let code: usize = codes[d] as usize;
        if d == 0 {
            proof {
                rows::lemma_row_bounds(
                    code as int,
                    PRIMARY_CODE_VOCAB_SIZE as int,
                    hidden as int,
                );
            }
            states.push(slice_to_vec(row_of(feedback.talker_codec, code, hidden)));
        } else {
            proof {
                assert(engine.residual[d - 1]@.len() == RESIDUAL_VOCAB * hidden);
                rows::lemma_row_bounds(code as int, RESIDUAL_VOCAB as int, hidden as int);
            }
            states.push(slice_to_vec(row_of(feedback.residual[d - 1], code, hidden)));
        }
    }
    proof {
        assert(rows::deep(states@) =~= engine.code_rows(codes@));
        assert forall|e: int| 0 <= e < rows::deep(states@).len() implies (
        #[trigger] rows::deep(states@)[e]).len() == hidden by {
            assert(states@[e]@.len() == hidden);
        }
    }
    states
}

/// A frame's codes: the primary code, then the residual codes.
fn join_codes(primary: u32, residuals: &Vec<usize>) -> (codes: Vec<u32>)
    requires
        forall|d: int| 0 <= d < residuals@.len() ==> #[trigger] residuals@[d] < RESIDUAL_VOCAB,
    ensures
        codes@ == model::codes_of(primary, residuals@),
        forall|d: int| 1 <= d < codes@.len() ==> #[trigger] codes@[d] < RESIDUAL_VOCAB,
{
    let mut codes: Vec<u32> = Vec::new();
    codes.push(primary);
    for d in 0..residuals.len()
        invariant
            forall|e: int| 0 <= e < residuals@.len() ==> #[trigger] residuals@[e] < RESIDUAL_VOCAB,
            codes@.len() == d + 1,
            codes@[0] == primary,
            forall|e: int|
                1 <= e <= d ==> #[trigger] codes@[e] == residuals@[e - 1] as u32 && codes@[e]
                    < RESIDUAL_VOCAB,
    {
        codes.push(residuals[d] as u32);
    }
    proof {
        assert(codes@ =~= model::codes_of(primary, residuals@));
    }
    codes
}

impl<'a, Q: Quantized, C: ColdTextRows<Q::Scalar>> QwenGenerator<'a, Q, C> {
    /// Advances by one frame: selects the primary code and the residual codes, and forms the
    /// talker's next input from their rows and one text row.
    ///
    /// A frame whose text row has not been given yet is not begun, so that nothing is drawn: an
    /// utterance that waited goes on as if it had not.
    pub fn next_frame<W: Widens<Q>>(&mut self) -> (result: Result<
        FrameStep<Q::Scalar>,
        GenerationError,
    >)
        requires
            old(self).wf(),
            old(self).utterance() matches Some(u) && !u.finished && !u.stalls() && u.pending is Some
                ==> old(self).positions() < usize::MAX,
        ensures
            final(self).wf(),
            final(self).same_voice(*old(self)),
            final(self).fetched() == old(self).fetched(),
            match old(self).utterance() {
                None => {
                    &&& result matches Err(GenerationError::NotBegun { call }) && call@
                        == "next_frame"@
                    &&& *final(self) == *old(self)
                },
                Some(u) => if u.finished {
                    &&& result matches Ok(FrameStep::Finished)
                    &&& *final(self) == *old(self)
                } else if u.stalls() {
                    &&& result matches Ok(FrameStep::AwaitingText)
                    &&& *final(self) == *old(self)
                } else if u.pending is None {
                    &&& result matches Err(GenerationError::TalkerPending)
                    &&& *final(self) == *old(self)
                } else {
                    &&& final(self).utterance() is Some
                    &&& !(result matches Ok(FrameStep::AwaitingText))
                    &&& match result {
                        Ok(FrameStep::Frame { frame, work }) => {
                            &&& frame.codes@.len() == RESIDUAL_DEPTHS + 1
                            &&& frame.codes@[0] < PRIMARY_CODE_VOCAB_SIZE
                            &&& frame.codes@[0] != CODEC_EOS_TOKEN_ID
                            &&& forall|d: int|
                                1 <= d <= RESIDUAL_DEPTHS ==> #[trigger] frame.codes@[d]
                                    < RESIDUAL_VOCAB
                            &&& work.count == 1
                            &&& work.first_position == u.next_position
                            &&& work.rows@.len() == old(self).engine().hidden
                            &&& arith::pure::<Q>() ==> work.rows@
                                == talker::frame_input_of::<Q>(
                                old(self).engine().code_rows(frame.codes@),
                                old(self).engine().text_row(u),
                            )
                            &&& final(self).utterance()->0 == u.after_frame(frame.codes@[0])
                        },
                        Ok(_) => final(self).utterance()->0 == u.stopped(),
                        Err(error) => {
                            &&& error is Sampler
                            &&& final(self).utterance()->0 == u
                        },
                    }
                    &&& old(self).config().sampling_mode == SamplingMode::CanonicalGreedy
                        ==> final(self).seed() == old(self).seed()
                    &&& model::exact_run::<Q, W>() ==> old(self).engine().advances::<W>(
                        u,
                        old(self).seed(),
                        result,
                        final(self).utterance()->0,
                        final(self).seed(),
                    )
                },
            },
    {
        match &self.utterance {
            None => {
                return Err(GenerationError::NotBegun { call: "next_frame" });
            },
            Some(utterance) => {
                if utterance.finished {
                    return Ok(FrameStep::Finished);
                }
                if utterance.continuation && !utterance.text_finished && utterance.frames_emitted
                    >= utterance.trailing_text_hidden.len() {
                    return Ok(FrameStep::AwaitingText);
                }
                if utterance.pending.is_none() {
                    return Err(GenerationError::TalkerPending);
                }
            },
        }
        self.advance::<W>()
    }

    /// Selects the codes of a frame for which everything is at hand.
    fn advance<W: Widens<Q>>(&mut self) -> (result: Result<FrameStep<Q::Scalar>, GenerationError>)
        requires
            old(self).wf(),
            old(self).positions() < usize::MAX,
            old(self).utterance() matches Some(u) && !u.finished && u.pending is Some,
        ensures
            final(self).wf(),
            final(self).same_voice(*old(self)),
            final(self).fetched() == old(self).fetched(),
            final(self).utterance() is Some,
            old(self).config().sampling_mode == SamplingMode::CanonicalGreedy ==> final(self).seed()
                == old(self).seed(),
            !(result matches Ok(FrameStep::AwaitingText)),
            match result {
                Ok(FrameStep::Frame { frame, work }) => {
                    &&& frame.codes@.len() == RESIDUAL_DEPTHS + 1
                    &&& frame.codes@[0] < PRIMARY_CODE_VOCAB_SIZE
                    &&& frame.codes@[0] != CODEC_EOS_TOKEN_ID
                    &&& forall|d: int|
                        1 <= d <= RESIDUAL_DEPTHS ==> #[trigger] frame.codes@[d] < RESIDUAL_VOCAB
                    &&& work.count == 1
                    &&& work.first_position == old(self).utterance()->0.next_position
                    &&& work.rows@.len() == old(self).engine().hidden
                    &&& arith::pure::<Q>() ==> work.rows@ == talker::frame_input_of::<Q>(
                        old(self).engine().code_rows(frame.codes@),
                        old(self).engine().text_row(old(self).utterance()->0),
                    )
                    &&& final(self).utterance()->0 == old(self).utterance()->0.after_frame(
                        frame.codes@[0],
                    )
                },
                Ok(_) => final(self).utterance()->0 == old(self).utterance()->0.stopped(),
                Err(error) => {
                    &&& error is Sampler
                    &&& final(self).utterance()->0 == old(self).utterance()->0
                },
            },
            model::exact_run::<Q, W>() ==> old(self).engine().advances::<W>(
                old(self).utterance()->0,
                old(self).seed(),
                result,
                final(self).utterance()->0,
                final(self).seed(),
            ),
    {
        let ghost engine = self.engine();
        let ghost u = self.utterance()->0;
        let ghost seed = self.seed();
        let mode = self.config.sampling_mode;
        let mut utterance = match self.utterance.take() {
            Some(utterance) => utterance,
            None => {
                return Err(GenerationError::TalkerPending);
            },
        };
        let (state, logits) = match utterance.pending.take() {
            Some(pending) => pending,
            None => {
                return Err(GenerationError::TalkerPending);
            },
        };
        let chosen = self.sampler.select_talker::<Q, W>(
            logits.as_slice(),
            utterance.group_zero_history.as_slice(),
            mode,
        );
        let ghost drawn = self.sampler.state();
        proof {
            lemma_history_is_valid(u.history, 0);
            if model::exact_run::<Q, W>() {
                assert(drawn == model::talker_seed::<Q, W>(logits@, u.history, mode, seed));
            }
        }
        let primary: u32 = match chosen {
            Ok(primary) => primary,
            Err(error) => {
                utterance.pending = Some((state, logits));
                self.utterance = Some(utterance);
                return Err(GenerationError::Sampler(error));
            },
        };
        if primary == CODEC_EOS_TOKEN_ID {
            utterance.pending = Some((state, logits));
            utterance.finished = true;
            self.utterance = Some(utterance);
            return Ok(FrameStep::Finished);
        }
        proof {
            rows::lemma_row_bounds(
                primary as int,
                PRIMARY_CODE_VOCAB_SIZE as int,
                engine.hidden,
            );
            assert(engine.read(state@, primary as int).fits());
        }
        let route = match &self.int8 {
            Some(int8) => int8.micro_route(),
            None => None,
        };
        let (residuals, failure) = decode_residuals::<Q, W>(
            &self.config.microdecoder_config,
            &self.rope,
            &self.config.microdecoder_weights,
            route.as_ref(),
            &mut self.frame_state,
            state.as_slice(),
            primary as usize,
            &mut self.sampler,
            mode,
        );
        if let Some(error) = failure {
            utterance.pending = Some((state, logits));
            self.utterance = Some(utterance);
            let result: Result<FrameStep<Q::Scalar>, GenerationError> = Err(
                GenerationError::Sampler(error),
            );
            proof {
                if model::exact_run::<Q, W>() {
                    assert(engine.completes::<W>(
                        u,
                        drawn,
                        primary as int,
                        residuals@,
                        result,
                        self.utterance()->0,
                        self.seed(),
                    ));
                }
            }
            return result;
        }
        let codes = join_codes(primary, &residuals);
        let states = feedback_rows::<Q>(
            &self.config.feedback,
            self.config.talker_config.hidden_size,
            &codes,
            Ghost(engine),
        );
        let read: usize = utterance.frames_emitted;
        proof {
            if read < utterance.trailing_text_hidden@.len() {
                assert(rows::deep(utterance.trailing_text_hidden@)[read as int].len()
                    == engine.hidden);
            }
        }
        let rows = if read < utterance.trailing_text_hidden.len() {
            form_frame_input::<Q>(&states, utterance.trailing_text_hidden[read].as_slice())
        } else {
            form_frame_input::<Q>(&states, self.config.header.tts_pad.as_slice())
        };
        let work = TalkerWork { rows, count: 1, first_position: utterance.next_position };
        utterance.next_position = utterance.next_position + 1;
        utterance.frames_emitted = utterance.frames_emitted + 1;
        utterance.group_zero_history.push(primary);
        self.cached = utterance.next_position;
        proof {
            assert(utterance.view() == u.after_frame(primary));
        }
        self.utterance = Some(utterance);
        let result: Result<FrameStep<Q::Scalar>, GenerationError> = Ok(
            FrameStep::Frame { frame: CodeFrame { codes }, work },
        );
        proof {
            if model::exact_run::<Q, W>() {
                assert(engine.completes::<W>(
                    u,
                    drawn,
                    primary as int,
                    residuals@,
                    result,
                    self.utterance()->0,
                    self.seed(),
                ));
            }
        }
        result
    }
}

/// Codes inside the vocabulary make a valid history.
proof fn lemma_history_is_valid(history: Seq<u32>, from: int)
    requires
        0 <= from,
        forall|i: int| 0 <= i < history.len() ==> #[trigger] history[i] < PRIMARY_CODE_VOCAB_SIZE,
    ensures
        sampler::first_invalid(history, PRIMARY_CODE_VOCAB_SIZE as int, from) is None,
    decreases history.len() - from,
{
    if from < history.len() {
        lemma_history_is_valid(history, from + 1);
    }
}

/// After a successful fetch every token asked about has an embedding.
proof fn lemma_fetched_covers<'a, S, C: ColdTextRows<S>>(
    text: TextEmbeddingWeights<'a, S>,
    source: Option<&'a C>,
    before: text_rows::Embeddings<S>,
    ids: Seq<u32>,
    after: text_rows::Embeddings<S>,
)
    requires
        fetches::<S, C>(text, source, before, ids, Ok(()), after),
    ensures
        text.first_uncovered(after, ids) is None,
{
    let lacking = text_rows::uncovered_of(text, before, ids);
    assert forall|i: int| 0 <= i < ids.len() implies text.covers(after, #[trigger] ids[i]) by {
        let id = ids[i];
        if !text.covers(before, id) {
            let p = |x: u32| !text.covers(before, x);
            ids.lemma_filter_contains(p, i);
            assert(lacking.contains(id));
            let missing = choose|missing: Seq<u32>|
                {
                    &&& #[trigger] ids::distinct_of(missing, lacking)
                    &&& source matches Some(rows) && exists|
                        reply: Result<(Vec<u32>, Vec<S>), GenerationError>,
                    |
                        {
                            &&& #[trigger] text_rows::may_reply::<S, C>(rows, missing, reply)
                            &&& takes_in(
                                before,
                                missing,
                                reply,
                                text.embed_width as int,
                                Ok(()),
                                after,
                            )
                        }
                };
            let reply = choose|reply: Result<(Vec<u32>, Vec<S>), GenerationError>|
                {
                    &&& #[trigger] text_rows::may_reply::<S, C>(source->0, missing, reply)
                    &&& takes_in(before, missing, reply, text.embed_width as int, Ok(()), after)
                };
            let got = reply->Ok_0.0@;
            let data = reply->Ok_0.1@;
            assert(missing.contains(id));
            text_rows::lemma_nothing_left_out(missing, got, id);
            assert(got.take(got.len() as int) =~= got);
            text_rows::law_taken_rows_cover_the_reply(
                before,
                got,
                data,
                text.embed_width as int,
                got.len() as int,
                id,
            );
        } else if before.contains_key(id) {
            if lacking.len() > 0 {
                lemma_fetch_keeps::<S, C>(text, source, before, ids, after, id);
            }
        }
    }
    text_rows::lemma_all_covered(text, after, ids);
}

/// A successful fetch keeps what was fetched before.
proof fn lemma_fetch_keeps<'a, S, C: ColdTextRows<S>>(
    text: TextEmbeddingWeights<'a, S>,
    source: Option<&'a C>,
    before: text_rows::Embeddings<S>,
    ids: Seq<u32>,
    after: text_rows::Embeddings<S>,
    id: u32,
)
    requires
        fetches::<S, C>(text, source, before, ids, Ok(()), after),
        before.contains_key(id),
    ensures
        after.contains_key(id),
        after[id] == before[id],
{
    let lacking = text_rows::uncovered_of(text, before, ids);
    if lacking.len() > 0 {
        let missing = choose|missing: Seq<u32>|
            {
                &&& #[trigger] ids::distinct_of(missing, lacking)
                &&& source matches Some(rows) && exists|
                    reply: Result<(Vec<u32>, Vec<S>), GenerationError>,
                |
                    {
                        &&& #[trigger] text_rows::may_reply::<S, C>(rows, missing, reply)
                        &&& takes_in(
                            before,
                            missing,
                            reply,
                            text.embed_width as int,
                            Ok(()),
                            after,
                        )
                    }
            };
        let reply = choose|reply: Result<(Vec<u32>, Vec<S>), GenerationError>|
            {
                &&& #[trigger] text_rows::may_reply::<S, C>(source->0, missing, reply)
                &&& takes_in(before, missing, reply, text.embed_width as int, Ok(()), after)
            };
        let got = reply->Ok_0.0@;
        let data = reply->Ok_0.1@;
        text_rows::law_taken_rows_cover_the_reply(
            before,
            got,
            data,
            text.embed_width as int,
            got.len() as int,
            id,
        );
    }
}

} // verus!
