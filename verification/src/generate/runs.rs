//! A whole utterance, call by call: frames asked for, text appended, and the end announced.
use vstd::prelude::*;
use crate::arith;
use crate::generate::error::GenerationError;
use crate::generate::laws;
use crate::generate::model;
use crate::generate::model::{Engine, FrameStep, TalkerWork, UtteranceStart, UtteranceView};
use crate::generate::session::QwenGeneratorConfig;
use crate::generate::text_rows::{ColdTextRows, Embeddings};
use crate::prompt;
use crate::prompt::PromptAssemblyInput;
use crate::quant::Quantized;
use crate::rows;
use crate::sampler::Widens;

verus! {

/// One call on an utterance under way.
pub enum Call<S> {
    /// Asks for a frame, and has the talker answer what the frame hands it.
    Frame,
    /// Appends text, as the rows it is projected to.
    Text(Seq<Seq<S>>),
    /// Announces the end of the text.
    End,
}

/// What a call for a frame gave, unless it was to wait for text.
pub enum Given {
    /// The codes of a frame.
    Codes(Seq<u32>),
    /// The utterance is over.
    Stopped,
    /// No frame could be had.
    Failed(GenerationError),
}

/// An utterance, what it was fed and what it gave.
pub struct Run<S> {
    /// The utterance.
    pub utterance: UtteranceView<S>,
    /// The random state.
    pub seed: u64,
    /// Everything the talker was run on, the prompt first.
    pub heard: Seq<Seq<S>>,
    /// Everything given so far.
    pub given: Seq<Given>,
}

/// The talker: the newest position's hidden state and logits, from everything it was run on.
pub type Talk<S> = spec_fn(Seq<Seq<S>>) -> (Seq<S>, Seq<S>);

/// A run that begins: the talker has answered the prompt.
pub open spec fn opening<S>(
    talk: Talk<S>,
    prompt: Seq<S>,
    utterance: UtteranceView<S>,
    seed: u64,
) -> Run<S> {
    let heard = seq![prompt];
    let (state, logits) = talk(heard);
    Run { utterance: utterance.answered(state, logits), seed, heard, given: Seq::empty() }
}

impl<S> Run<S> {
    /// The run once a call for a frame has given something.
    pub open spec fn gave(
        &self,
        talk: Talk<S>,
        result: Result<FrameStep<S>, GenerationError>,
        next: UtteranceView<S>,
        after: u64,
    ) -> Self {
        match result {
            Ok(FrameStep::Frame { frame, work }) => {
                let heard = self.heard.push(work.rows@);
                let (state, logits) = talk(heard);
                Run {
                    utterance: next.answered(state, logits),
                    seed: after,
                    heard,
                    given: self.given.push(Given::Codes(frame.codes@)),
                }
            },
            Ok(_) => Run {
                utterance: next,
                seed: after,
                heard: self.heard,
                given: self.given.push(Given::Stopped),
            },
            Err(error) => Run {
                utterance: next,
                seed: after,
                heard: self.heard,
                given: self.given.push(Given::Failed(error)),
            },
        }
    }

    /// That more text may come.
    pub open spec fn open(&self) -> bool {
        self.utterance.continuation && !self.utterance.text_finished
    }
}

/// What one call leads to. Text is appended and its end announced only while more may come, and no
/// text is appended once the model has stopped.
pub open spec fn follows<'a, Q: Quantized, W: Widens<Q>>(
    engine: Engine<'a, Q>,
    talk: Talk<Q::Scalar>,
    eos: Seq<Q::Scalar>,
    before: Run<Q::Scalar>,
    call: Call<Q::Scalar>,
    after: Run<Q::Scalar>,
) -> bool {
    let u = before.utterance;
    match call {
        Call::Frame => if u.finished {
            after == (Run { given: before.given.push(Given::Stopped), ..before })
        } else if u.stalls() {
            after == before
        } else {
            exists|
                result: Result<FrameStep<Q::Scalar>, GenerationError>,
                next: UtteranceView<Q::Scalar>,
                seed: u64,
            |
                {
                    &&& #[trigger] engine.advances::<W>(u, before.seed, result, next, seed)
                    &&& after == before.gave(talk, result, next, seed)
                }
        },
        Call::Text(rows) => {
            &&& before.open()
            &&& !u.finished
            &&& after == (Run { utterance: u.extended(rows), ..before })
        },
        Call::End => {
            &&& before.open()
            &&& after == (Run { utterance: u.closed_with(eos), ..before })
        },
    }
}

/// That `runs` is what `calls` lead through.
pub open spec fn passes<'a, Q: Quantized, W: Widens<Q>>(
    engine: Engine<'a, Q>,
    talk: Talk<Q::Scalar>,
    eos: Seq<Q::Scalar>,
    calls: Seq<Call<Q::Scalar>>,
    runs: Seq<Run<Q::Scalar>>,
) -> bool {
    &&& runs.len() == calls.len() + 1
    &&& forall|i: int|
        0 <= i < calls.len() ==> follows::<Q, W>(
            engine,
            talk,
            eos,
            runs[i],
            #[trigger] calls[i],
            runs[i + 1],
        )
}

/// The rows of all text that `calls` append.
pub open spec fn text_of<S>(calls: Seq<Call<S>>) -> Seq<Seq<S>>
    decreases calls.len(),
{
    if calls.len() == 0 {
        Seq::empty()
    } else {
        text_of(calls.drop_last()) + match calls.last() {
            Call::Text(rows) => rows,
            _ => Seq::empty(),
        }
    }
}

/// That two runs differ only in how much of the same text they have been given.
pub open spec fn level<S>(a: Run<S>, b: Run<S>) -> bool {
    &&& laws::alike(a.utterance, b.utterance)
    &&& a.seed == b.seed
    &&& a.heard == b.heard
    &&& a.given == b.given
}

/// That `runs` asks for one frame after another of text that is all there.
pub open spec fn at_once<'a, Q: Quantized, W: Widens<Q>>(
    engine: Engine<'a, Q>,
    talk: Talk<Q::Scalar>,
    eos: Seq<Q::Scalar>,
    runs: Seq<Run<Q::Scalar>>,
) -> bool {
    &&& runs.len() > 0
    &&& passes::<Q, W>(
        engine,
        talk,
        eos,
        Seq::new((runs.len() - 1) as nat, |i: int| Call::Frame),
        runs,
    )
    &&& !runs[0].open()
}

/// Text only grows, and once its end is announced it stays.
proof fn lemma_text_grows<'a, Q: Quantized, W: Widens<Q>>(
    engine: Engine<'a, Q>,
    talk: Talk<Q::Scalar>,
    eos: Seq<Q::Scalar>,
    calls: Seq<Call<Q::Scalar>>,
    runs: Seq<Run<Q::Scalar>>,
    i: int,
    j: int,
)
    requires
        passes::<Q, W>(engine, talk, eos, calls, runs),
        0 <= i <= j < runs.len(),
    ensures
        runs[i].utterance.trailing.len() <= runs[j].utterance.trailing.len(),
        runs[i].utterance.trailing == runs[j].utterance.trailing.take(
            runs[i].utterance.trailing.len() as int,
        ),
        !runs[i].open() ==> !runs[j].open() && runs[i].utterance.trailing
            == runs[j].utterance.trailing,
        runs[i].utterance.frames <= runs[j].utterance.frames,
    decreases j - i,
{
    let from = runs[i].utterance.trailing;
    let to = runs[j].utterance.trailing;
    if i == j {
        assert(to.take(to.len() as int) =~= to);
    } else {
        lemma_text_grows::<Q, W>(engine, talk, eos, calls, runs, i, j - 1);
        let near = runs[j - 1].utterance.trailing;
        assert(follows::<Q, W>(engine, talk, eos, runs[j - 1], calls[j - 1], runs[j]));
        assert(near.len() <= to.len() && near =~= to.take(near.len() as int));
        assert(from =~= to.take(from.len() as int)) by {
            assert forall|k: int| 0 <= k < from.len() implies from[k] == to[k] by {
                assert(near.take(from.len() as int)[k] == near[k]);
                assert(to.take(near.len() as int)[k] == to[k]);
            }
        }
    }
}

/// A run whose text is all there stays so.
proof fn lemma_all_there<'a, Q: Quantized, W: Widens<Q>>(
    engine: Engine<'a, Q>,
    talk: Talk<Q::Scalar>,
    eos: Seq<Q::Scalar>,
    runs: Seq<Run<Q::Scalar>>,
    k: int,
)
    requires
        at_once::<Q, W>(engine, talk, eos, runs),
        0 <= k < runs.len(),
    ensures
        !runs[k].open(),
        runs[k].utterance.trailing == runs[0].utterance.trailing,
        runs[k].given.len() == runs[0].given.len() + k,
    decreases k,
{
    if k > 0 {
        lemma_all_there::<Q, W>(engine, talk, eos, runs, k - 1);
        let asks: Seq<Call<Q::Scalar>> = Seq::new(
            (runs.len() - 1) as nat,
            |i: int| Call::Frame,
        );
        lemma_text_grows::<Q, W>(engine, talk, eos, asks, runs, k - 1, k);
        assert(follows::<Q, W>(engine, talk, eos, runs[k - 1], asks[k - 1], runs[k]));
    }
}

/// One frame of each of two level runs keeps them level.
proof fn lemma_frame_keeps_level<'a, Q: Quantized, W: Widens<Q>>(
    engine: Engine<'a, Q>,
    talk: Talk<Q::Scalar>,
    eos: Seq<Q::Scalar>,
    a: Run<Q::Scalar>,
    b: Run<Q::Scalar>,
    next_a: Run<Q::Scalar>,
    next_b: Run<Q::Scalar>,
)
    requires
        level(a, b),
        0 <= a.utterance.frames,
        a.utterance.finished || !a.utterance.stalls(),
        a.utterance.finished || a.utterance.frames < a.utterance.trailing.len()
            || a.utterance.trailing == b.utterance.trailing,
        !b.utterance.stalls(),
        follows::<Q, W>(engine, talk, eos, a, Call::Frame, next_a),
        follows::<Q, W>(engine, talk, eos, b, Call::Frame, next_b),
    ensures
        level(next_a, next_b),
{
    let u = a.utterance;
    let v = b.utterance;
    if !u.finished {
        let (result_a, after_a, seed_a) = choose|
            result: Result<FrameStep<Q::Scalar>, GenerationError>,
            next: UtteranceView<Q::Scalar>,
            seed: u64,
        |
            {
                &&& #[trigger] engine.advances::<W>(u, a.seed, result, next, seed)
                &&& next_a == a.gave(talk, result, next, seed)
            };
        let (result_b, after_b, seed_b) = choose|
            result: Result<FrameStep<Q::Scalar>, GenerationError>,
            next: UtteranceView<Q::Scalar>,
            seed: u64,
        |
            {
                &&& #[trigger] engine.advances::<W>(v, b.seed, result, next, seed)
                &&& next_b == b.gave(talk, result, next, seed)
            };
        laws::law_pieces_of_text_change_no_frame::<Q, W>(
            engine,
            u,
            v,
            a.seed,
            result_a,
            after_a,
            seed_a,
        );
        laws::law_seed_decides_the_frame::<Q, W>(
            engine,
            v,
            b.seed,
            result_a,
            laws::at_point_of(after_a, v),
            seed_a,
            result_b,
            after_b,
            seed_b,
        );
        assert(laws::alike(after_a, after_b));
    }
}

/// A call gives one thing at most, and exactly one where it asks for a frame that need not wait.
proof fn lemma_gives_one<'a, Q: Quantized, W: Widens<Q>>(
    engine: Engine<'a, Q>,
    talk: Talk<Q::Scalar>,
    eos: Seq<Q::Scalar>,
    before: Run<Q::Scalar>,
    call: Call<Q::Scalar>,
    after: Run<Q::Scalar>,
)
    requires
        follows::<Q, W>(engine, talk, eos, before, call, after),
    ensures
        after.given.len() == before.given.len() + if call is Frame && (before.utterance.finished
            || !before.utterance.stalls()) {
            1int
        } else {
            0
        },
{
}

/// Text and its end keep a run level with one that has them already.
proof fn lemma_text_keeps_level<'a, Q: Quantized, W: Widens<Q>>(
    engine: Engine<'a, Q>,
    talk: Talk<Q::Scalar>,
    eos: Seq<Q::Scalar>,
    a: Run<Q::Scalar>,
    call: Call<Q::Scalar>,
    next: Run<Q::Scalar>,
    b: Run<Q::Scalar>,
)
    requires
        level(a, b),
        !(call is Frame),
        follows::<Q, W>(engine, talk, eos, a, call, next),
        next.utterance.trailing.len() <= b.utterance.trailing.len(),
        next.utterance.trailing == b.utterance.trailing.take(
            next.utterance.trailing.len() as int,
        ),
    ensures
        level(next, b),
{
}

/// What begins something that begins a third begins the third.
proof fn lemma_beginning_of_beginning<T>(a: Seq<T>, b: Seq<T>, c: Seq<T>)
    requires
        a.len() <= b.len() <= c.len(),
        a == b.take(a.len() as int),
        b == c.take(b.len() as int),
    ensures
        a == c.take(a.len() as int),
{
    assert(a =~= c.take(a.len() as int));
}

/// An utterance given its text in pieces gives, waiting left out, frame by frame what the utterance
/// given the whole text gives, however the text is split and whenever the pieces come. After
/// equally many frames both are at the same position, in the same random state, and the talker has
/// heard the same.
///
/// `pieces` is the one run and `whole` the other; what the first was given by its last call begins
/// what the second was given, and is all of it once its end was announced.
pub proof fn law_text_in_pieces_gives_the_frames_of_the_whole<'a, Q: Quantized, W: Widens<Q>>(
    engine: Engine<'a, Q>,
    talk: Talk<Q::Scalar>,
    eos: Seq<Q::Scalar>,
    calls: Seq<Call<Q::Scalar>>,
    pieces: Seq<Run<Q::Scalar>>,
    whole: Seq<Run<Q::Scalar>>,
    i: int,
)
    requires
        passes::<Q, W>(engine, talk, eos, calls, pieces),
        at_once::<Q, W>(engine, talk, eos, whole),
        level(pieces[0], whole[0]),
        0 <= pieces[0].utterance.frames,
        pieces[0].given.len() == 0,
        pieces.last().utterance.trailing.len() <= whole[0].utterance.trailing.len(),
        pieces.last().utterance.trailing == whole[0].utterance.trailing.take(
            pieces.last().utterance.trailing.len() as int,
        ),
        !pieces.last().open() ==> pieces.last().utterance.trailing == whole[0].utterance.trailing,
        0 <= i < pieces.len(),
        pieces[i].given.len() < whole.len(),
    ensures
        level(pieces[i], whole[pieces[i].given.len() as int]),
        pieces[i].utterance.next_position == whole[pieces[i].given.len() as int].utterance.next_position,
    decreases i,
{
    let last = pieces.len() - 1;
    let k = pieces[i].given.len() as int;
    if i > 0 {
        let a = pieces[i - 1];
        let call = calls[i - 1];
        let all = whole[0].utterance.trailing;
        assert(follows::<Q, W>(engine, talk, eos, a, call, pieces[i]));
        lemma_gives_one::<Q, W>(engine, talk, eos, a, call, pieces[i]);
        law_text_in_pieces_gives_the_frames_of_the_whole::<Q, W>(
            engine,
            talk,
            eos,
            calls,
            pieces,
            whole,
            i - 1,
        );
        let at = a.given.len() as int;
        let b = whole[at];
        lemma_all_there::<Q, W>(engine, talk, eos, whole, at);
        lemma_text_grows::<Q, W>(engine, talk, eos, calls, pieces, 0, i - 1);
        lemma_text_grows::<Q, W>(engine, talk, eos, calls, pieces, i - 1, last);
        lemma_text_grows::<Q, W>(engine, talk, eos, calls, pieces, i, last);
        lemma_beginning_of_beginning(
            pieces[i].utterance.trailing,
            pieces[last].utterance.trailing,
            all,
        );
        if call is Frame {
            if a.utterance.finished || !a.utterance.stalls() {
                let asks: Seq<Call<Q::Scalar>> = Seq::new(
                    (whole.len() - 1) as nat,
                    |j: int| Call::Frame,
                );
                assert(follows::<Q, W>(engine, talk, eos, whole[at], asks[at], whole[at + 1]));
                lemma_frame_keeps_level::<Q, W>(engine, talk, eos, a, b, pieces[i], whole[k]);
            }
        } else {
            lemma_text_keeps_level::<Q, W>(engine, talk, eos, a, call, pieces[i], b);
        }
    }
}

/// The text of a run: what it began with, what was appended, and the end once announced.
pub proof fn law_text_is_what_was_appended<'a, Q: Quantized, W: Widens<Q>>(
    engine: Engine<'a, Q>,
    talk: Talk<Q::Scalar>,
    eos: Seq<Q::Scalar>,
    calls: Seq<Call<Q::Scalar>>,
    runs: Seq<Run<Q::Scalar>>,
)
    requires
        passes::<Q, W>(engine, talk, eos, calls, runs),
        runs[0].open(),
    ensures
        runs.last().utterance.trailing == runs[0].utterance.trailing + text_of(calls) + if
            runs.last().open() {
            Seq::empty()
        } else {
            seq![eos]
        },
    decreases calls.len(),
{
    if calls.len() > 0 {
        let n = calls.len() as int;
        let fewer = calls.drop_last();
        let shorter = runs.drop_last();
        assert forall|i: int| 0 <= i < fewer.len() implies follows::<Q, W>(
            engine,
            talk,
            eos,
            shorter[i],
            #[trigger] fewer[i],
            shorter[i + 1],
        ) by {
            assert(follows::<Q, W>(engine, talk, eos, runs[i], calls[i], runs[i + 1]));
        }
        law_text_is_what_was_appended::<Q, W>(engine, talk, eos, fewer, shorter);
        assert(follows::<Q, W>(engine, talk, eos, runs[n - 1], calls[n - 1], runs[n]));
        assert(shorter.last() == runs[n - 1]);
        lemma_text_grows::<Q, W>(engine, talk, eos, calls, runs, n - 1, n);
    }
    assert(runs.last().utterance.trailing =~= runs[0].utterance.trailing + text_of(calls) + if
        runs.last().open() {
        Seq::empty()
    } else {
        seq![eos]
    });
}

/// Two generators of one voice, one begun with the whole text and one with a first piece of it
/// that is not empty: their prompts are the same, and once the other pieces are appended, in any
/// split and at any time, and the end announced, the second has given, waiting left out, what the
/// first gives, and stands where it stands.
///
/// Every token has the same embedding in both.
pub proof fn law_streamed_text_is_spoken_as_the_whole<
    'a,
    Q: Quantized,
    W: Widens<Q>,
    C: ColdTextRows<Q::Scalar>,
>(
    config: QwenGeneratorConfig<'a, Q, C>,
    engine: Engine<'a, Q>,
    talk: Talk<Q::Scalar>,
    seed: u64,
    fetched: Embeddings<Q::Scalar>,
    whole_ids: Seq<u32>,
    whole_work: TalkerWork<Q::Scalar>,
    whole_start: UtteranceView<Q::Scalar>,
    whole: Seq<Run<Q::Scalar>>,
    fetched_first: Embeddings<Q::Scalar>,
    first_ids: Seq<u32>,
    first_work: TalkerWork<Q::Scalar>,
    first_start: UtteranceView<Q::Scalar>,
    rest: Seq<u32>,
    calls: Seq<Call<Q::Scalar>>,
    pieces: Seq<Run<Q::Scalar>>,
    i: int,
)
    requires
        model::exact_run::<Q, W>(),
        config.continuable(),
        config.begins(fetched, whole_ids, UtteranceStart::Fresh, whole_work, whole_start),
        config.begins(
            fetched_first,
            first_ids,
            UtteranceStart::Continuation,
            first_work,
            first_start,
        ),
        ({
            let text = config.text;
            let first = prompt::body_of(first_ids, prompt::target_suffix());
            &&& first.len() > 0
            &&& prompt::body_of(whole_ids, prompt::target_suffix()) == first + rest
            &&& text.states::<Q>(fetched_first, first) == text.states::<Q>(fetched, first)
            &&& text_of(calls).is_prefix_of(text.states::<Q>(fetched, rest))
            &&& !pieces.last().open() ==> text_of(calls) == text.states::<Q>(fetched, rest)
        }),
        passes::<Q, W>(engine, talk, config.tts_eos@, calls, pieces),
        pieces[0] == opening(talk, first_work.rows@, first_start, seed),
        at_once::<Q, W>(engine, talk, config.tts_eos@, whole),
        whole[0] == opening(talk, whole_work.rows@, whole_start, seed),
        0 <= i < pieces.len(),
        pieces[i].given.len() < whole.len(),
    ensures
        first_work.rows@ == whole_work.rows@,
        level(pieces[i], whole[pieces[i].given.len() as int]),
{
    let eos = config.tts_eos@;
    let text = config.text;
    let first_body = prompt::body_of(first_ids, prompt::target_suffix());
    let a = choose|input: PromptAssemblyInput<Q::Scalar>| #[trigger]
        config.begins_with(
            fetched_first,
            first_ids,
            UtteranceStart::Continuation,
            input,
            first_work,
            first_start,
        );
    let b = choose|input: PromptAssemblyInput<Q::Scalar>| #[trigger]
        config.begins_with(
            fetched,
            whole_ids,
            UtteranceStart::Fresh,
            input,
            whole_work,
            whole_start,
        );
    assert(arith::pure::<Q>());
    let tail = text.states::<Q>(fetched, rest);
    laws::law_states_of_pieces_join::<Q>(text, fetched, first_body, rest);
    laws::law_prompt_in_pieces_is_whole::<Q>(a, b, tail, first_work.count as int);
    law_text_is_what_was_appended::<Q, W>(engine, talk, eos, calls, pieces);
    let begun = pieces[0].utterance.trailing;
    let all = whole[0].utterance.trailing;
    let shown = pieces.last().utterance.trailing;
    assert(begun == a.trailing());
    assert(all == b.trailing());
    assert(all =~= begun + tail + seq![eos]);
    assert(begun =~= all.take(begun.len() as int));
    assert(text_of(calls) =~= tail.take(text_of(calls).len() as int));
    assert(shown =~= all.take(shown.len() as int));
    law_text_in_pieces_gives_the_frames_of_the_whole::<Q, W>(
        engine,
        talk,
        eos,
        calls,
        pieces,
        whole,
        i,
    );
}

/// A call for a frame whose text has not come leaves no trace: the run goes on as if the call had
/// not been made.
pub proof fn law_waiting_leaves_no_trace<'a, Q: Quantized, W: Widens<Q>>(
    engine: Engine<'a, Q>,
    talk: Talk<Q::Scalar>,
    eos: Seq<Q::Scalar>,
    calls: Seq<Call<Q::Scalar>>,
    runs: Seq<Run<Q::Scalar>>,
    i: int,
)
    requires
        passes::<Q, W>(engine, talk, eos, calls, runs),
        0 <= i < calls.len(),
        calls[i] is Frame,
        !runs[i].utterance.finished,
        runs[i].utterance.stalls(),
    ensures
        passes::<Q, W>(engine, talk, eos, calls.remove(i), runs.remove(i)),
        runs.remove(i).last() == runs.last(),
{
    let fewer = calls.remove(i);
    let shorter = runs.remove(i);
    assert(follows::<Q, W>(engine, talk, eos, runs[i], calls[i], runs[i + 1]));
    assert forall|j: int| 0 <= j < fewer.len() implies follows::<Q, W>(
        engine,
        talk,
        eos,
        shorter[j],
        #[trigger] fewer[j],
        shorter[j + 1],
    ) by {
        let k = if j < i {
            j
        } else {
            j + 1
        };
        assert(follows::<Q, W>(engine, talk, eos, runs[k], calls[k], runs[k + 1]));
        assert(shorter[j] == runs[k]);
        assert(shorter[j + 1] == runs[k + 1]);
    }
}

/// Once the model has stopped, every call for a frame says so, and nothing else changes.
pub proof fn law_the_end_is_final<'a, Q: Quantized, W: Widens<Q>>(
    engine: Engine<'a, Q>,
    talk: Talk<Q::Scalar>,
    eos: Seq<Q::Scalar>,
    calls: Seq<Call<Q::Scalar>>,
    runs: Seq<Run<Q::Scalar>>,
    i: int,
    j: int,
)
    requires
        passes::<Q, W>(engine, talk, eos, calls, runs),
        0 <= i <= j < runs.len(),
        runs[i].utterance.finished,
    ensures
        runs[j].utterance.finished,
        runs[j].seed == runs[i].seed,
        runs[j].heard == runs[i].heard,
        runs[j].utterance.next_position == runs[i].utterance.next_position,
        runs[j].utterance.frames == runs[i].utterance.frames,
        runs[i].given.len() <= runs[j].given.len(),
        forall|k: int|
            runs[i].given.len() <= k < runs[j].given.len() ==> #[trigger] runs[j].given[k]
                is Stopped,
    decreases j - i,
{
    if i < j {
        law_the_end_is_final::<Q, W>(engine, talk, eos, calls, runs, i, j - 1);
        assert(follows::<Q, W>(engine, talk, eos, runs[j - 1], calls[j - 1], runs[j]));
        assert forall|k: int| runs[i].given.len() <= k < runs[j].given.len() implies (
        #[trigger] runs[j].given[k]) is Stopped by {
            if k < runs[j - 1].given.len() {
                assert(runs[j - 1].given[k] is Stopped);
            }
        }
    }
}

} // verus!
