//! What a frame feeds back to the talker.
use vstd::prelude::*;
use crate::algebra;
use crate::arith;
use crate::arith::{Arithmetic, Constant};
use crate::generate::error::GenerationError;
use crate::generate::model;
use crate::generate::model::{causal_mask, Engine, FrameStep, TalkerWork, UtteranceStart, UtteranceView};
use crate::generate::residuals;
use crate::generate::route;
use crate::generate::route::{Int8Route, RouteSettings};
use crate::generate::session::QwenGeneratorConfig;
use crate::generate::text_rows;
use crate::generate::text_rows::{ColdTextRows, TextEmbeddingWeights};
use crate::ids;
use crate::microdecoder;
use crate::microdecoder::frame::{FrameInputs, MicrodecoderWeights, PackedRoute};
use crate::microdecoder::{MicrodecoderConfig, RopeTable, RESIDUAL_DEPTHS, RESIDUAL_VOCAB};
use crate::prompt;
use crate::prompt::{CloneMode, PromptAssemblyInput};
use crate::quant;
use crate::quant::Quantized;
use crate::rows;
use crate::sampler;
use crate::sampler::{Ask, SamplingMode, Widens, CODEC_EOS_TOKEN_ID};
use crate::storage::{Artifact, Bits};
use crate::talker;
use crate::talker::{TalkerConfig, TalkerWeights, PRIMARY_CODE_VOCAB_SIZE};

verus! {

/// Every code of a frame is fed back. Where addition is exact, each value of the row the talker is
/// run on next is that of one text row plus the values that all sixteen codes look up: the primary
/// code in the talker's own table, each residual code in the table of its depth. The text row is
/// the one that stands at the frame's number, and the padding row once the text is used up.
pub proof fn law_every_code_is_fed_back<'a, Q: Quantized, W: Widens<Q>>(
    engine: Engine<'a, Q>,
    u: UtteranceView<Q::Scalar>,
    seed: u64,
    result: Result<FrameStep<Q::Scalar>, GenerationError>,
    v: UtteranceView<Q::Scalar>,
    after: u64,
    lane: int,
)
    requires
        algebra::additive::<Q>(),
        engine.shaped(),
        u.wf(engine.hidden),
        engine.advances::<W>(u, seed, result, v, after),
        result matches Ok(FrameStep::Frame { frame, work }) && frame.codes@[0]
            < PRIMARY_CODE_VOCAB_SIZE && forall|d: int|
            1 <= d <= RESIDUAL_DEPTHS ==> #[trigger] frame.codes@[d] < RESIDUAL_VOCAB,
        0 <= lane < engine.hidden,
    ensures
        result matches Ok(FrameStep::Frame { frame, work }) && {
            let hidden = engine.hidden;
            let codes = frame.codes@;
            let text = if u.frames < u.trailing.len() {
                u.trailing[u.frames][lane]
            } else {
                engine.tts_pad[lane]
            };
            let looked_up = |d: int|
                if d == 0 {
                    engine.talker_codec[codes[0] * hidden + lane]
                } else {
                    engine.residual[d - 1]@[codes[d] * hidden + lane]
                };
            &&& codes.len() == 16
            &&& work.rows@.len() == hidden
            &&& work.rows@[lane] == algebra::plus::<Q>(text, algebra::sum_over::<Q>(looked_up, 16))
            &&& work.first_position == u.next_position
            &&& v.next_position == u.next_position + 1
            &&& v.frames == u.frames + 1
            &&& v.history == u.history.push(codes[0])
        },
{
    let step = result->Ok_0;
    match step {
        FrameStep::Frame { frame, work } => {
            let hidden = engine.hidden;
            let codes = frame.codes@;
            let states = engine.code_rows(codes);
            let text = engine.text_row(u);
            assert(codes.len() == 16);
            assert forall|d: int| 0 <= d < states.len() implies (#[trigger] states[d]).len()
                == text.len() && states[d][lane] == if d == 0 {
                engine.talker_codec[codes[0] * hidden + lane]
            } else {
                engine.residual[d - 1]@[codes[d] * hidden + lane]
            } by {
                if d == 0 {
                    rows::lemma_row_bounds(codes[0] as int, PRIMARY_CODE_VOCAB_SIZE as int, hidden);
                } else {
                    assert(codes[d] < RESIDUAL_VOCAB);
                    assert(engine.residual[d - 1]@.len() == RESIDUAL_VOCAB * hidden);
                    rows::lemma_row_bounds(codes[d] as int, RESIDUAL_VOCAB as int, hidden);
                }
            }
            talker::law_next_input_adds_every_row::<Q>(states, text, lane);
            let looked_up = |d: int|
                if d == 0 {
                    engine.talker_codec[codes[0] * hidden + lane]
                } else {
                    engine.residual[d - 1]@[codes[d] * hidden + lane]
                };
            let terms = |d: int| states[d][lane];
            assert forall|d: int| 0 <= d < 16 implies #[trigger] terms(d) == looked_up(d) by {
                assert(states[d].len() == text.len());
            }
            algebra::lemma_sum_alike::<Q>(terms, looked_up, 16);
        },
        _ => {},
    }
}

/// That each residual code is selected in its turn: the best score of its depth, or the sampler's
/// choice with what the depths before it have left of the random state. The scores of a depth read
/// the codes of the depths before it.
pub open spec fn picked_in_turn<'a, Q: Quantized, W: Widens<Q>>(
    reads: FrameInputs<'a, Q>,
    codes: Seq<usize>,
    mode: SamplingMode,
    seed: u64,
) -> bool {
    &&& codes.len() == 15
    &&& forall|d: int|
        0 <= d < 15 ==> match mode {
            SamplingMode::CanonicalGreedy => #[trigger] codes[d] == microdecoder::argmax_of::<Q>(
                reads.logits(codes, d),
                2_048,
            ),
            SamplingMode::Production => sampler::choice_of::<Q, W>(
                reads.logits(codes, d),
                mode,
                sampler::mixed(
                    sampler::next_state(residuals::seed_at::<Q, W>(reads, codes, mode, seed, d)),
                ),
            ) == Some(codes[d] as int),
        }
}

/// Where no depth has failed, none of the first has.
proof fn lemma_no_failure<'a, Q: Quantized, W: Widens<Q>>(
    reads: FrameInputs<'a, Q>,
    codes: Seq<usize>,
    mode: SamplingMode,
    seed: u64,
    n: int,
    d: int,
)
    requires
        0 <= d < n,
        residuals::first_failure::<Q, W>(reads, codes, mode, seed, n) is None,
    ensures
        residuals::depth_failure::<Q, W>(
            reads.logits(codes, d),
            mode,
            residuals::seed_at::<Q, W>(reads, codes, mode, seed, d),
        ) is None,
    decreases n,
{
    if d < n - 1 {
        lemma_no_failure::<Q, W>(reads, codes, mode, seed, n - 1, d);
    }
}

/// The codes of a frame are the sampler's. The first is what it selects from the talker's processed
/// logits, and is not the end of speech. The others are selected in turn by the microdecoder, which
/// reads the talker's state and the primary code.
pub proof fn law_codes_are_selected_in_turn<'a, Q: Quantized, W: Widens<Q>>(
    engine: Engine<'a, Q>,
    u: UtteranceView<Q::Scalar>,
    seed: u64,
    result: Result<FrameStep<Q::Scalar>, GenerationError>,
    v: UtteranceView<Q::Scalar>,
    after: u64,
    state: Seq<Q::Scalar>,
    logits: Seq<Q::Scalar>,
    primary: int,
)
    requires
        engine.advances::<W>(u, seed, result, v, after),
        u.pending == Some((state, logits)),
        result matches Ok(FrameStep::Frame { frame, work }),
        Some(primary) == sampler::choice_of::<Q, W>(
            sampler::processed_of::<Q>(logits, u.history),
            engine.mode,
            sampler::mixed(sampler::next_state(seed)),
        ),
    ensures
        result matches Ok(FrameStep::Frame { frame, work }) && {
            &&& primary != 2_150
            &&& frame.codes@.len() == 16
            &&& frame.codes@[0] == primary as u32
            &&& exists|codes: Seq<usize>, drawn: u64|
                {
                    &&& #[trigger] picked_in_turn::<Q, W>(
                        FrameInputs {
                            config: engine.config,
                            rope: engine.rope,
                            weights: engine.weights,
                            route: engine.route,
                            talker_hidden: state,
                            primary_code: primary as usize as int,
                        },
                        codes,
                        engine.mode,
                        drawn,
                    )
                    &&& engine.mode == SamplingMode::CanonicalGreedy ==> drawn == seed
                    &&& forall|d: int|
                        0 <= d < 15 ==> #[trigger] frame.codes@[d + 1] == codes[d] as u32
                }
        },
{
    let drawn = model::talker_seed::<Q, W>(logits, u.history, engine.mode, seed);
    let reads = engine.read(state, primary);
    assert(primary != CODEC_EOS_TOKEN_ID);
    let codes = choose|codes: Seq<usize>|
        engine.completes::<W>(u, drawn, primary, codes, result, v, after);
    assert(engine.completes::<W>(u, drawn, primary, codes, result, v, after));
    assert forall|d: int| 0 <= d < 15 implies match engine.mode {
        SamplingMode::CanonicalGreedy => #[trigger] codes[d] == microdecoder::argmax_of::<Q>(
            reads.logits(codes, d),
            2_048,
        ),
        SamplingMode::Production => sampler::choice_of::<Q, W>(
            reads.logits(codes, d),
            engine.mode,
            sampler::mixed(
                sampler::next_state(
                    residuals::seed_at::<Q, W>(reads, codes, engine.mode, drawn, d),
                ),
            ),
        ) == Some(codes[d] as int),
    } by {
        lemma_no_failure::<Q, W>(reads, codes, engine.mode, drawn, 15, d);
        assert(codes[d] == residuals::depth_code::<Q, W>(
            reads.logits(codes, d),
            engine.mode,
            residuals::seed_at::<Q, W>(reads, codes, engine.mode, drawn, d),
        ));
    }
    assert(picked_in_turn::<Q, W>(reads, codes, engine.mode, drawn));
}

/// With a speaker vector and streaming, a frame reads the text token by token. The frame that is
/// numbered `k` reads, beside its codes, the state of token `k + 1` of the text that was given; the
/// prompt has taken the first.
pub proof fn law_frames_read_the_text_in_order<'a, Q: Quantized, C: ColdTextRows<Q::Scalar>>(
    config: QwenGeneratorConfig<'a, Q, C>,
    fetched: text_rows::Embeddings<Q::Scalar>,
    ids: Seq<u32>,
    body: Seq<u32>,
    start: UtteranceStart,
    work: TalkerWork<Q::Scalar>,
    u: UtteranceView<Q::Scalar>,
    k: int,
)
    requires
        arith::pure::<Q>(),
        config.begins(fetched, ids, start, work, u),
        config.prompt_mode.clone_mode == CloneMode::XVector,
        !config.prompt_mode.non_streaming_mode,
        ids == seq![151_644u32, 77_091u32, 198u32] + body + seq![
            151_645u32,
            198u32,
            151_644u32,
            77_091u32,
            198u32,
        ],
        body.len() > 0,
    ensures
        u.frames == 0,
        u.trailing.len() == if start == UtteranceStart::Continuation {
            body.len() - 1
        } else {
            body.len() as int
        },
        0 <= k < body.len() - 1 ==> u.trailing[k] == talker::projected_of::<Q>(
            config.text.fc1_weight@,
            config.text.fc1_bias@,
            config.text.fc2_weight@,
            config.text.fc2_bias@,
            config.text.embedding(fetched, body[k + 1]),
        ),
        start == UtteranceStart::Fresh ==> u.trailing[body.len() - 1] == config.tts_eos@,
        u.next_position == work.count,
{
    let input = choose|input: PromptAssemblyInput<Q::Scalar>| #[trigger]
        config.begins_with(fetched, ids, start, input, work, u);
    let suffix = prompt::target_suffix();
    assert(ids =~= prompt::wrapped(body, suffix));
    assert(prompt::body_of(ids, suffix) =~= body);
    let target = rows::deep(input.target_text@);
    assert(target == config.text.states::<Q>(fetched, body));
    assert(target.len() == body.len());
    if 0 <= k < body.len() - 1 {
        assert(input.trailing()[k] == target[k + 1]);
    }
    if start == UtteranceStart::Fresh {
        assert(input.trailing()[body.len() - 1] == input.tts_eos@);
    }
}

/// A scope arms the stack it names, or both, and nothing is armed where the route is not; an artifact's
/// own bytes are read unless the setting says otherwise.
pub proof fn law_scopes_arm_their_stacks<'e, 'b, M>(
    settings: RouteSettings<'e, M>,
    artifact: &'b Artifact,
)
    ensures
        !settings.armed ==> !settings.talker() && !settings.micro(),
        settings.armed && settings.scope@ == "talker"@ ==> settings.talker() && !settings.micro(),
        settings.armed && settings.scope@ == "micro"@ ==> !settings.talker() && settings.micro(),
        settings.armed && settings.scope@ != "talker"@ && settings.scope@ != "micro"@
            ==> settings.talker() && settings.micro(),
        settings.artifact_q8 is None ==> settings.read(Some(artifact)) == Some(artifact),
        settings.artifact_q8 matches Some(word) && (word@ == "0"@ || word@ == "off"@ || word@
            == "false"@) ==> settings.read(Some(artifact)) is None,
{
    reveal_strlit("talker");
    reveal_strlit("micro");
    assert("talker"@.len() != "micro"@.len());
}

/// Whatever length [`causal_mask`] is asked for, a query may look at itself and everything before it.
pub proof fn law_masks_hide_the_future<A: Arithmetic>(
    seq: usize,
    mask: Vec<A::Scalar>,
    query: int,
    key: int,
)
    requires
        arith::pure::<A>(),
        seq * seq <= usize::MAX,
        call_ensures(causal_mask::<A>, (seq,), mask),
        0 <= query < seq,
        0 <= key < seq,
    ensures
        mask@.len() == seq * seq,
        key <= query ==> mask@[query * seq + key] == algebra::zero::<A>(),
        query < key ==> mask@[query * seq + key] == arith::cst::<A>(Constant::NegativeInfinity),
{
    rows::lemma_row_bounds(query, seq as int, seq as int);
    assert(rows::row(mask@, query, seq as int)[key] == mask@[query * seq + key]);
}

/// A token's embedding is the row that stands where the token stands among the gathered, or the row that
/// was fetched for it; and its state is that row projected.
pub proof fn law_tokens_look_up_their_rows<'a, A: Arithmetic>(
    text: TextEmbeddingWeights<'a, A::Scalar>,
    fetched: text_rows::Embeddings<A::Scalar>,
    ids: Seq<u32>,
    i: int,
    slot: int,
)
    requires
        0 <= i < ids.len(),
        ids::ascending(text.gathered@),
    ensures
        text.states::<A>(fetched, ids).len() == ids.len(),
        text.states::<A>(fetched, ids)[i] == talker::projected_of::<A>(
            text.fc1_weight@,
            text.fc1_bias@,
            text.fc2_weight@,
            text.fc2_bias@,
            text.embedding(fetched, ids[i]),
        ),
        0 <= slot < text.gathered@.len() && text.gathered@[slot] == ids[i] ==> text.embedding(
            fetched,
            ids[i],
        ) == text.table@.subrange(slot * text.embed_width, slot * text.embed_width
            + text.embed_width),
        !text.gathered@.contains(ids[i]) ==> text.embedding(fetched, ids[i]) == fetched[ids[i]],
{
    if 0 <= slot < text.gathered@.len() && text.gathered@[slot] == ids[i] {
        assert(text.gathered@.contains(ids[i]));
        let found = text.gathered@.index_of(ids[i]);
        assert(text.gathered@[found] == ids[i]);
        if found < slot {
            assert(text.gathered@[found] < text.gathered@[slot]);
        } else if slot < found {
            assert(text.gathered@[slot] < text.gathered@[found]);
        }
    }
}

/// What a generator's frames read is what its configuration holds.
pub proof fn law_frames_read_the_configuration<'a, Q: Quantized, C: ColdTextRows<Q::Scalar>>(
    config: QwenGeneratorConfig<'a, Q, C>,
    rope: RopeTable<Q>,
    route: Option<PackedRoute<Q>>,
)
    ensures
        ({
            let engine = config.engine(rope, route);
            &&& engine.hidden == config.talker_config.hidden_size
            &&& engine.talker_codec == config.feedback.talker_codec@
            &&& engine.residual == config.feedback.residual@
            &&& engine.tts_pad == config.header.tts_pad@
            &&& engine.config == config.microdecoder_config
            &&& engine.weights == config.microdecoder_weights
            &&& engine.rope == rope
            &&& engine.route == route
            &&& engine.mode == config.sampling_mode
        }),
{
}

/// The steps of an utterance change what they say and nothing else: the talker's answer becomes what the
/// next frame reads, text is appended behind the text, and the end of text stands last and is final.
pub proof fn law_steps_change_what_they_say<S>(
    u: UtteranceView<S>,
    state: Seq<S>,
    logits: Seq<S>,
    rows: Seq<Seq<S>>,
    eos: Seq<S>,
    i: int,
)
    ensures
        u.answered(state, logits) == (UtteranceView { pending: Some((state, logits)), ..u }),
        u.extended(rows).trailing.len() == u.trailing.len() + rows.len(),
        0 <= i < u.trailing.len() ==> u.extended(rows).trailing[i] == u.trailing[i],
        0 <= i < rows.len() ==> u.extended(rows).trailing[u.trailing.len() + i] == rows[i],
        u.extended(rows).frames == u.frames,
        u.extended(rows).history == u.history,
        u.extended(rows).pending == u.pending,
        u.extended(rows).next_position == u.next_position,
        u.closed_with(eos).trailing.len() == u.trailing.len() + 1,
        0 <= i < u.trailing.len() ==> u.closed_with(eos).trailing[i] == u.trailing[i],
        u.closed_with(eos).trailing[u.trailing.len() as int] == eos,
        u.closed_with(eos).text_finished,
        u.closed_with(eos).frames == u.frames,
        u.closed_with(eos).pending == u.pending,
        u.stopped() == (UtteranceView { finished: true, ..u }),
{
}

/// Every production draw moves the random state by one step: the primary code's draw before the first
/// depth, and each depth's before the next; greedy selections leave it alone.
pub proof fn law_every_draw_moves_the_random_state<'a, Q: Quantized, W: Widens<Q>>(
    reads: FrameInputs<'a, Q>,
    codes: Seq<usize>,
    mode: SamplingMode,
    seed: u64,
    depth: int,
    logits: Seq<Q::Scalar>,
    history: Seq<u32>,
)
    requires
        0 <= depth < 15,
    ensures
        residuals::seed_at::<Q, W>(reads, codes, mode, seed, 0) == seed,
        mode == SamplingMode::CanonicalGreedy ==> residuals::seed_at::<Q, W>(
            reads,
            codes,
            mode,
            seed,
            depth + 1,
        ) == residuals::seed_at::<Q, W>(reads, codes, mode, seed, depth),
        mode == SamplingMode::Production && reads.logits(codes, depth).len() == 2_048
            && residuals::depth_failure::<Q, W>(
            reads.logits(codes, depth),
            mode,
            residuals::seed_at::<Q, W>(reads, codes, mode, seed, depth),
        ) is None ==> residuals::seed_at::<Q, W>(reads, codes, mode, seed, depth + 1)
            == sampler::next_state(residuals::seed_at::<Q, W>(reads, codes, mode, seed, depth)),
        mode == SamplingMode::CanonicalGreedy ==> model::talker_seed::<Q, W>(
            logits,
            history,
            mode,
            seed,
        ) == seed,
        mode == SamplingMode::Production && logits.len() == 3_072 && sampler::first_invalid(
            history,
            3_072,
            0,
        ) is None && model::talker_failure::<Q, W>(logits, history, mode, seed) is None
            ==> model::talker_seed::<Q, W>(logits, history, mode, seed) == sampler::next_state(
            seed,
        ),
{
    let state = residuals::seed_at::<Q, W>(reads, codes, mode, seed, depth);
    sampler::law_only_a_drawn_token_draws::<Q, W>(
        Ask::Microdecoder { logits: reads.logits(codes, depth), mode },
        state,
    );
    sampler::law_only_a_drawn_token_draws::<Q, W>(Ask::Talker { logits, history, mode }, seed);
}

/// A route that is armed without an artifact holds what its weights pack to: every layer of the talker
/// and of the microdecoder in its place, on the kernel that was asked for, and nothing of a stack that
/// is not armed.
pub proof fn law_armed_stacks_hold_their_own_weights<'a, 'e, E: Quantized + Bits>(
    settings: RouteSettings<'e, E::Mode>,
    talker_config: TalkerConfig<E::Scalar>,
    talker_weights: TalkerWeights<'a, E::Scalar>,
    microdecoder_config: MicrodecoderConfig<E::Scalar>,
    microdecoder_weights: MicrodecoderWeights<'a, E::Scalar>,
    prepared: Int8Route<E>,
    i: int,
)
    requires
        route::exact_route::<E>(),
        route::prepared::<E>(
            settings,
            talker_config,
            talker_weights,
            microdecoder_config,
            microdecoder_weights,
            None,
            prepared,
        ),
    ensures
        prepared.kernel() == settings.mode,
        !settings.talker() ==> prepared.talker_layers().len() == 0,
        !settings.micro() ==> prepared.micro_layers().len() == 0 && prepared.heads().len() == 0
            && prepared.packed() is None,
        settings.talker() ==> prepared.talker_layers().len() == talker_weights.layers@.len(),
        settings.talker() && 0 <= i < talker_weights.layers@.len()
            ==> prepared.talker_layers()[i].packs(talker_config, talker_weights.layers@[i]),
        settings.micro() ==> prepared.micro_layers().len() == microdecoder_weights.layers@.len()
            && prepared.heads().len() == microdecoder_weights.heads@.len(),
        settings.micro() && 0 <= i < microdecoder_weights.layers@.len() ==> {
            &&& prepared.micro_layers()[i].packs(
                microdecoder_config,
                microdecoder_weights.layers@[i],
            )
            &&& prepared.packed() matches Some(packed) && packed.layers == prepared.micro_layers()
                && packed.mode == settings.mode
        },
        settings.micro() && 0 <= i < microdecoder_weights.heads@.len()
            ==> prepared.heads()[i].data() == quant::packed::<E>(
            microdecoder_weights.heads@[i]@,
            2_048,
            microdecoder_config.hidden_size,
        ),
{
    if settings.talker() && 0 <= i < talker_weights.layers@.len() {
        assert(prepared.talker_layers()[i].fits(talker_config));
    }
    if settings.micro() && 0 <= i < microdecoder_weights.layers@.len() {
        assert(prepared.micro_layers()[i].fits(microdecoder_config));
    }
    if settings.micro() && 0 <= i < microdecoder_weights.heads@.len() {
        assert(prepared.heads()[i].outputs() == RESIDUAL_VOCAB);
    }
}

} // verus!
