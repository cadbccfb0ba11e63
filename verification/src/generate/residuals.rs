//! The residual codes of one frame, selected as the run selects its primary codes.
use vstd::prelude::*;
use crate::microdecoder;
use crate::microdecoder::argmax;
use crate::microdecoder::frame;
use crate::microdecoder::frame::{run_position, FrameInputs, MicroQuantRoute, MicrodecoderWeights};
use crate::microdecoder::layer;
use crate::microdecoder::layer::FrameState;
use crate::microdecoder::{
    MicrodecoderConfig, RopeTable, FRAME_POSITIONS, RESIDUAL_DEPTHS, RESIDUAL_VOCAB,
};
use crate::quant::Quantized;
use crate::sampler;
use crate::sampler::{QwenSampler, SamplerError, SamplingMode, Widens};

verus! {

/// That what is selected is a function of the logits and the generator's state.
pub open spec fn settled<Q: Quantized, W: Widens<Q>>(mode: SamplingMode) -> bool {
    layer::exact::<Q>() && (mode == SamplingMode::CanonicalGreedy || sampler::pure_wide::<Q, W>())
}

/// Why no code can be drawn from one row of logits.
pub open spec fn depth_failure<Q: Quantized, W: Widens<Q>>(
    logits: Seq<Q::Scalar>,
    mode: SamplingMode,
    seed: u64,
) -> Option<SamplerError> {
    match mode {
        SamplingMode::CanonicalGreedy => None,
        SamplingMode::Production => match sampler::first_bad::<Q>(logits, 0) {
            Some(index) => Some(SamplerError::NonFiniteLogit { index: index as usize }),
            None => match sampler::choice_of::<Q, W>(
                logits,
                mode,
                sampler::mixed(sampler::next_state(seed)),
            ) {
                Some(_) => None,
                None => Some(SamplerError::NoCandidate),
            },
        },
    }
}

/// The code selected from one row of logits; zero stands in where none can be drawn.
pub open spec fn depth_code<Q: Quantized, W: Widens<Q>>(
    logits: Seq<Q::Scalar>,
    mode: SamplingMode,
    seed: u64,
) -> int {
    match mode {
        SamplingMode::CanonicalGreedy => microdecoder::argmax_of::<Q>(
            logits,
            RESIDUAL_VOCAB as int,
        ),
        SamplingMode::Production => match depth_failure::<Q, W>(logits, mode, seed) {
            Some(_) => 0,
            None => sampler::choice_of::<Q, W>(
                logits,
                mode,
                sampler::mixed(sampler::next_state(seed)),
            )->0,
        },
    }
}

/// The generator's state after one row of logits.
pub open spec fn depth_seed<Q: Quantized, W: Widens<Q>>(
    logits: Seq<Q::Scalar>,
    mode: SamplingMode,
    seed: u64,
) -> u64 {
    if mode == SamplingMode::Production && sampler::first_bad::<Q>(logits, 0) is None
        && sampler::draws::<Q, W>(logits, mode) {
        sampler::next_state(seed)
    } else {
        seed
    }
}

/// The generator's state before depth `d`.
pub open spec fn seed_at<'a, Q: Quantized, W: Widens<Q>>(
    frame: FrameInputs<'a, Q>,
    codes: Seq<usize>,
    mode: SamplingMode,
    seed: u64,
    d: int,
) -> u64
    decreases d,
{
    if d <= 0 {
        seed
    } else {
        depth_seed::<Q, W>(
            frame.logits(codes, d - 1),
            mode,
            seed_at::<Q, W>(frame, codes, mode, seed, d - 1),
        )
    }
}

/// That every code is the one its depth selects, given the codes before it.
pub open spec fn sampled<'a, Q: Quantized, W: Widens<Q>>(
    frame: FrameInputs<'a, Q>,
    codes: Seq<usize>,
    mode: SamplingMode,
    seed: u64,
) -> bool {
    forall|d: int|
        0 <= d < codes.len() ==> #[trigger] codes[d] == depth_code::<Q, W>(
            frame.logits(codes, d),
            mode,
            seed_at::<Q, W>(frame, codes, mode, seed, d),
        )
}

/// The first failure among the first `n` depths.
pub open spec fn first_failure<'a, Q: Quantized, W: Widens<Q>>(
    frame: FrameInputs<'a, Q>,
    codes: Seq<usize>,
    mode: SamplingMode,
    seed: u64,
    n: int,
) -> Option<SamplerError>
    decreases n,
{
    if n <= 0 {
        None
    } else {
        match first_failure::<Q, W>(frame, codes, mode, seed, n - 1) {
            Some(error) => Some(error),
            None => depth_failure::<Q, W>(
                frame.logits(codes, n - 1),
                mode,
                seed_at::<Q, W>(frame, codes, mode, seed, n - 1),
            ),
        }
    }
}

/// States and failures up to a depth do not depend on the codes from it on.
proof fn lemma_prefix_decides<'a, Q: Quantized, W: Widens<Q>>(
    frame: FrameInputs<'a, Q>,
    a: Seq<usize>,
    b: Seq<usize>,
    mode: SamplingMode,
    seed: u64,
    n: int,
)
    requires
        0 <= n,
        forall|d: int| 0 <= d < n ==> #[trigger] frame.logits(a, d) == frame.logits(b, d),
    ensures
        seed_at::<Q, W>(frame, a, mode, seed, n) == seed_at::<Q, W>(frame, b, mode, seed, n),
        first_failure::<Q, W>(frame, a, mode, seed, n) == first_failure::<Q, W>(
            frame,
            b,
            mode,
            seed,
            n,
        ),
    decreases n,
{
    if n > 0 {
        assert(frame.logits(a, n - 1) == frame.logits(b, n - 1));
        lemma_prefix_decides::<Q, W>(frame, a, b, mode, seed, n - 1);
    }
}

/// At most one frame of codes can be selected from one state of the generator.
pub proof fn law_seed_decides_the_codes<'a, Q: Quantized, W: Widens<Q>>(
    frame: FrameInputs<'a, Q>,
    a: Seq<usize>,
    b: Seq<usize>,
    mode: SamplingMode,
    seed: u64,
)
    requires
        a.len() == RESIDUAL_DEPTHS,
        b.len() == RESIDUAL_DEPTHS,
        sampled::<Q, W>(frame, a, mode, seed),
        sampled::<Q, W>(frame, b, mode, seed),
    ensures
        a == b,
{
    lemma_same_prefix::<Q, W>(frame, a, b, mode, seed, RESIDUAL_DEPTHS as int);
    assert(a.take(RESIDUAL_DEPTHS as int) =~= a);
    assert(b.take(RESIDUAL_DEPTHS as int) =~= b);
}

/// Codes selected from one state agree depth by depth.
proof fn lemma_same_prefix<'a, Q: Quantized, W: Widens<Q>>(
    frame: FrameInputs<'a, Q>,
    a: Seq<usize>,
    b: Seq<usize>,
    mode: SamplingMode,
    seed: u64,
    n: int,
)
    requires
        0 <= n <= RESIDUAL_DEPTHS,
        a.len() == RESIDUAL_DEPTHS,
        b.len() == RESIDUAL_DEPTHS,
        sampled::<Q, W>(frame, a, mode, seed),
        sampled::<Q, W>(frame, b, mode, seed),
    ensures
        a.take(n) == b.take(n),
    decreases n,
{
    if n > 0 {
        let d = n - 1;
        lemma_same_prefix::<Q, W>(frame, a, b, mode, seed, d);
        assert forall|e: int| 0 <= e <= d implies #[trigger] frame.logits(a, e) == frame.logits(
            b,
            e,
        ) by {
            assert(a.take(e) =~= a.take(d).take(e));
            assert(b.take(e) =~= b.take(d).take(e));
            frame.law_logits_read_earlier_codes(a, b, e);
        }
        lemma_prefix_decides::<Q, W>(frame, a, b, mode, seed, d);
        assert(a[d] == b[d]);
        assert(a.take(n) =~= a.take(d).push(a[d]));
        assert(b.take(n) =~= b.take(d).push(b[d]));
    }
}

/// Greedy selection draws nothing, never fails, and takes the largest logit of every depth.
pub proof fn law_greedy_residuals_draw_nothing<'a, Q: Quantized, W: Widens<Q>>(
    frame: FrameInputs<'a, Q>,
    codes: Seq<usize>,
    seed: u64,
    n: int,
)
    requires
        codes.len() == RESIDUAL_DEPTHS,
    ensures
        seed_at::<Q, W>(frame, codes, SamplingMode::CanonicalGreedy, seed, n) == seed,
        first_failure::<Q, W>(frame, codes, SamplingMode::CanonicalGreedy, seed, n) is None,
        sampled::<Q, W>(frame, codes, SamplingMode::CanonicalGreedy, seed) == frame.greedy(codes),
    decreases n,
{
    if n > 0 {
        law_greedy_residuals_draw_nothing::<Q, W>(frame, codes, seed, n - 1);
    }
}

/// Selects one residual code; a failure is reported beside the code that stands in.
fn select_code<Q: Quantized, W: Widens<Q>>(
    sampler: &mut QwenSampler,
    logits: &[Q::Scalar],
    mode: SamplingMode,
) -> (result: (usize, Option<SamplerError>))
    requires
        logits@.len() == RESIDUAL_VOCAB,
    ensures
        result.0 < RESIDUAL_VOCAB,
        mode == SamplingMode::CanonicalGreedy ==> {
            &&& result.1 is None
            &&& final(sampler).state() == old(sampler).state()
        },
        settled::<Q, W>(mode) ==> {
            &&& result.0 == depth_code::<Q, W>(logits@, mode, old(sampler).state())
            &&& result.1 == depth_failure::<Q, W>(logits@, mode, old(sampler).state())
            &&& final(sampler).state() == depth_seed::<Q, W>(logits@, mode, old(sampler).state())
        },
{
    match mode {
        SamplingMode::CanonicalGreedy => (argmax::<Q>(logits), None),
        SamplingMode::Production => match sampler.select_microdecoder::<Q, W>(logits, mode) {
            Ok(code) => (code as usize, None),
            Err(error) => (0, Some(error)),
        },
    }
}

/// Decodes one frame's residual codes.
///
/// The loop is not cut short where no code can be drawn: zero stands in for the rest of the
/// frame, and the first failure is what the caller is told.
pub fn decode_residuals<'a, Q: Quantized, W: Widens<Q>>(
    config: &MicrodecoderConfig<Q::Scalar>,
    rope: &RopeTable<Q>,
    weights: &MicrodecoderWeights<'a, Q::Scalar>,
    route: Option<&'a MicroQuantRoute<'a, Q>>,
    state: &mut FrameState<Q>,
    talker_hidden: &[Q::Scalar],
    primary_code: usize,
    sampler: &mut QwenSampler,
    mode: SamplingMode,
) -> (result: (Vec<usize>, Option<SamplerError>))
    requires
        frame::frame_of::<Q>(*config, *rope, *weights, route, talker_hidden@, primary_code).fits(),
        old(state).serves(*config),
    ensures
        final(state).serves(*config),
        result.0@.len() == RESIDUAL_DEPTHS,
        forall|d: int| 0 <= d < RESIDUAL_DEPTHS ==> #[trigger] result.0@[d] < RESIDUAL_VOCAB,
        mode == SamplingMode::CanonicalGreedy ==> {
            &&& result.1 is None
            &&& final(sampler).state() == old(sampler).state()
        },
        settled::<Q, W>(mode) ==> {
            let read = frame::frame_of::<Q>(
                *config,
                *rope,
                *weights,
                route,
                talker_hidden@,
                primary_code,
            );
            let seed = old(sampler).state();
            &&& sampled::<Q, W>(read, result.0@, mode, seed)
            &&& result.1 == first_failure::<Q, W>(
                read,
                result.0@,
                mode,
                seed,
                RESIDUAL_DEPTHS as int,
            )
            &&& final(sampler).state() == seed_at::<Q, W>(
                read,
                result.0@,
                mode,
                seed,
                RESIDUAL_DEPTHS as int,
            )
        },
{
    let ghost read = frame::frame_of::<Q>(
        *config,
        *rope,
        *weights,
        route,
        talker_hidden@,
        primary_code,
    );
    let ghost seed = sampler.state();
    state.reset();
    let mut codes: Vec<usize> = Vec::new();
    let mut failure: Option<SamplerError> = None;
    for position in 0..FRAME_POSITIONS
        invariant
            read == frame::frame_of::<Q>(
                *config,
                *rope,
                *weights,
                route,
                talker_hidden@,
                primary_code,
            ),
            read.fits(),
            state.serves(*config),
            codes@.len() == if position <= 1 {
                0
            } else {
                position - 1
            },
            forall|d: int| 0 <= d < codes@.len() ==> #[trigger] codes@[d] < RESIDUAL_VOCAB,
            read.reached(*state, codes@, position as int),
            mode == SamplingMode::CanonicalGreedy ==> failure is None && sampler.state() == seed,
            settled::<Q, W>(mode) ==> {
                let n = codes@.len() as int;
                &&& sampled::<Q, W>(read, codes@, mode, seed)
                &&& failure == first_failure::<Q, W>(read, codes@, mode, seed, n)
                &&& sampler.state() == seed_at::<Q, W>(read, codes@, mode, seed, n)
            },
    {
        let logits = run_position::<Q>(
            config,
            rope,
            weights,
            route,
            state,
            talker_hidden,
            primary_code,
            codes.as_slice(),
            position,
            Ghost(read),
        );
        if position > 0 {
            let ghost earlier = codes@;
            let (code, error) = select_code::<Q, W>(sampler, logits.as_slice(), mode);
            if failure.is_none() {
                failure = error;
            }
            codes.push(code);
            proof {
                let n = earlier.len() as int;
                read.lemma_code_pushed(*state, earlier, code);
                assert forall|e: int| 0 <= e < n implies #[trigger] read.logits(codes@, e)
                    == read.logits(earlier, e) by {}
                if settled::<Q, W>(mode) {
                    lemma_prefix_decides::<Q, W>(read, codes@, earlier, mode, seed, n);
                    assert(read.logits(codes@, n) == read.logits(earlier, n));
                    assert forall|d: int| 0 <= d < codes@.len() implies #[trigger] codes@[d]
                        == depth_code::<Q, W>(
                        read.logits(codes@, d),
                        mode,
                        seed_at::<Q, W>(read, codes@, mode, seed, d),
                    ) by {
                        if d < n {
                            lemma_prefix_decides::<Q, W>(read, codes@, earlier, mode, seed, d);
                            assert(read.logits(codes@, d) == read.logits(earlier, d));
                            assert(codes@[d] == earlier[d]);
                        }
                    }
                }
            }
        }
    }
    (codes, failure)
}

} // verus!
