//! What holds across the calls on a generator.
use vstd::prelude::*;
use crate::arith::Arithmetic;
use crate::generate::error::GenerationError;
use crate::generate::model;
use crate::generate::model::{Engine, FrameStep, UtteranceStart, UtteranceView};
use crate::generate::residuals;
use crate::generate::text_rows::{Embeddings, TextEmbeddingWeights};
use crate::prompt;
use crate::prompt::{CloneMode, PromptAssemblyInput};
use crate::quant::Quantized;
use crate::rows;
use crate::sampler::{Widens, CODEC_EOS_TOKEN_ID};

verus! {

/// That two utterances differ only in how much of the same text they have been given.
pub open spec fn alike<S>(u: UtteranceView<S>, v: UtteranceView<S>) -> bool {
    &&& u.pending == v.pending
    &&& u.next_position == v.next_position
    &&& u.frames == v.frames
    &&& u.history == v.history
    &&& u.finished == v.finished
    &&& u.trailing.len() <= v.trailing.len()
    &&& u.trailing == v.trailing.take(u.trailing.len() as int)
}

/// An utterance at the point of `u`, given the text of `v`.
pub open spec fn at_point_of<S>(u: UtteranceView<S>, v: UtteranceView<S>) -> UtteranceView<S> {
    UtteranceView {
        trailing: v.trailing,
        continuation: v.continuation,
        text_finished: v.text_finished,
        ..u
    }
}

/// A frame reads one text row and no more: an utterance given its text piece by piece goes on
/// exactly as one given all of it at once, as long as it has the row that the frame reads.
pub proof fn law_pieces_of_text_change_no_frame<'a, Q: Quantized, W: Widens<Q>>(
    engine: Engine<'a, Q>,
    u: UtteranceView<Q::Scalar>,
    v: UtteranceView<Q::Scalar>,
    seed: u64,
    result: Result<FrameStep<Q::Scalar>, GenerationError>,
    next: UtteranceView<Q::Scalar>,
    after: u64,
)
    requires
        alike(u, v),
        0 <= u.frames,
        u.frames < u.trailing.len() || u.trailing == v.trailing,
        engine.advances::<W>(u, seed, result, next, after),
    ensures
        engine.advances::<W>(v, seed, result, at_point_of(next, v), after),
        alike(next, at_point_of(next, v)),
{
    if u.frames < u.trailing.len() {
        assert(u.trailing[u.frames] == v.trailing.take(u.trailing.len() as int)[u.frames]);
    }
    assert(engine.text_row(u) == engine.text_row(v));
    let (state, logits) = u.pending->0;
    let drawn = model::talker_seed::<Q, W>(logits, u.history, engine.mode, seed);
    if model::talker_failure::<Q, W>(logits, u.history, engine.mode, seed) is None {
        let primary = model::talker_choice::<Q, W>(logits, u.history, engine.mode, seed)->0;
        if primary != CODEC_EOS_TOKEN_ID {
            let residuals = choose|residuals: Seq<usize>|
                engine.completes::<W>(u, drawn, primary, residuals, result, next, after);
            assert(engine.completes::<W>(
                v,
                drawn,
                primary,
                residuals,
                result,
                at_point_of(next, v),
                after,
            ));
        }
    }
}

/// The talker's answer keeps utterances alike.
pub proof fn law_answers_keep_utterances_alike<S>(
    u: UtteranceView<S>,
    v: UtteranceView<S>,
    state: Seq<S>,
    logits: Seq<S>,
)
    requires
        alike(u, v),
    ensures
        alike(u.answered(state, logits), v.answered(state, logits)),
{
}

/// Appending the next piece of the text keeps utterances alike.
pub proof fn law_next_piece_keeps_utterances_alike<S>(
    u: UtteranceView<S>,
    v: UtteranceView<S>,
    piece: Seq<Seq<S>>,
)
    requires
        alike(u, v),
        u.trailing.len() + piece.len() <= v.trailing.len(),
        piece == v.trailing.subrange(
            u.trailing.len() as int,
            (u.trailing.len() + piece.len()) as int,
        ),
    ensures
        alike(u.extended(piece), v),
{
    assert(u.extended(piece).trailing =~= v.trailing.take(
        (u.trailing.len() + piece.len()) as int,
    ));
}

/// An utterance waits for text only while more may follow, and never once its end is announced.
pub proof fn law_only_open_text_is_waited_for<S>(u: UtteranceView<S>, eos: Seq<S>)
    ensures
        u.stalls() ==> u.continuation && !u.text_finished,
        !u.closed_with(eos).stalls(),
        !u.continuation ==> !u.stalls(),
{
}

/// Text given in two pieces makes the prompt and the trailing rows of the whole text, where the
/// first piece is not empty.
pub proof fn law_prompt_in_pieces_is_whole<A: Arithmetic>(
    first: PromptAssemblyInput<A::Scalar>,
    whole: PromptAssemblyInput<A::Scalar>,
    rest: Seq<Seq<A::Scalar>>,
    positions: int,
)
    requires
        first.mode == whole.mode,
        first.mode.clone_mode == CloneMode::XVector,
        !first.mode.non_streaming_mode,
        prompt::same_header(first.header, whole.header),
        first.header_fits(),
        first.tts_eos@ == whole.tts_eos@,
        first.hold_tts_eos,
        !whole.hold_tts_eos,
        first.target_text@.len() > 0,
        rows::deep(whole.target_text@) == rows::deep(first.target_text@) + rest,
    ensures
        prompt::prefill_of::<A>(first) == prompt::prefill_of::<A>(whole),
        model::begun(first.trailing(), positions, UtteranceStart::Continuation).extended(
            rest,
        ).closed_with(first.tts_eos@).trailing == whole.trailing(),
{
    let a = rows::deep(first.target_text@);
    let b = rows::deep(whole.target_text@);
    assert(b.len() == whole.target_text@.len());
    assert(a.len() == first.target_text@.len());
    assert(b[0] == a[0]);
    assert(first.header.codec_prefill@.len() == rows::deep(first.header.codec_prefill@).len());
    assert(whole.header.codec_prefill@.len() == rows::deep(whole.header.codec_prefill@).len());
    assert forall|i: int| 0 <= i < first.header.codec_prefill@.len() implies (
    #[trigger] first.header.codec_prefill@[i])@ == whole.header.codec_prefill@[i]@ by {
        assert(rows::deep(first.header.codec_prefill@)[i] == rows::deep(
            whole.header.codec_prefill@,
        )[i]);
    }
    assert(prompt::header_of::<A>(first) =~= prompt::header_of::<A>(whole));
    assert(first.codec_bos() == whole.codec_bos());
    assert(prompt::prefill_of::<A>(first) =~= prompt::prefill_of::<A>(whole));
    assert(b.skip(1) =~= a.skip(1) + rest);
    assert((a.skip(1) + rest).push(first.tts_eos@) =~= b.skip(1) + seq![whole.tts_eos@]);
    assert(first.trailing() =~= a.skip(1));
}

/// Tokens are projected one by one, so that text can be given in pieces.
pub proof fn law_states_of_pieces_join<'a, A: Arithmetic>(
    text: TextEmbeddingWeights<'a, A::Scalar>,
    fetched: Embeddings<A::Scalar>,
    first: Seq<u32>,
    rest: Seq<u32>,
)
    ensures
        text.states::<A>(fetched, first + rest) == text.states::<A>(fetched, first)
            + text.states::<A>(fetched, rest),
{
    assert(text.states::<A>(fetched, first + rest) =~= text.states::<A>(fetched, first)
        + text.states::<A>(fetched, rest));
}

/// An utterance and a random state decide the frame, the utterance after it and the random state
/// after it.
pub proof fn law_seed_decides_the_frame<'a, Q: Quantized, W: Widens<Q>>(
    engine: Engine<'a, Q>,
    u: UtteranceView<Q::Scalar>,
    seed: u64,
    a: Result<FrameStep<Q::Scalar>, GenerationError>,
    next_a: UtteranceView<Q::Scalar>,
    after_a: u64,
    b: Result<FrameStep<Q::Scalar>, GenerationError>,
    next_b: UtteranceView<Q::Scalar>,
    after_b: u64,
)
    requires
        engine.advances::<W>(u, seed, a, next_a, after_a),
        engine.advances::<W>(u, seed, b, next_b, after_b),
    ensures
        next_a == next_b,
        after_a == after_b,
        match (a, b) {
            (
                Ok(FrameStep::Frame { frame: x, work: p }),
                Ok(FrameStep::Frame { frame: y, work: q }),
            ) => x.codes@ == y.codes@ && p.rows@ == q.rows@ && p.first_position
                == q.first_position,
            (Ok(FrameStep::Finished), Ok(FrameStep::Finished)) => true,
            (Err(x), Err(y)) => x == y,
            _ => false,
        },
{
    let (state, logits) = u.pending->0;
    let drawn = model::talker_seed::<Q, W>(logits, u.history, engine.mode, seed);
    if model::talker_failure::<Q, W>(logits, u.history, engine.mode, seed) is None {
        let primary = model::talker_choice::<Q, W>(logits, u.history, engine.mode, seed)->0;
        if primary != CODEC_EOS_TOKEN_ID {
            let x = choose|x: Seq<usize>|
                engine.completes::<W>(u, drawn, primary, x, a, next_a, after_a);
            let y = choose|y: Seq<usize>|
                engine.completes::<W>(u, drawn, primary, y, b, next_b, after_b);
            residuals::law_seed_decides_the_codes::<Q, W>(
                engine.read(state, primary),
                x,
                y,
                engine.mode,
                drawn,
            );
        }
    }
}

} // verus!
