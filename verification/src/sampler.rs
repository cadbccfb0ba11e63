//! The two sampling contracts: the talker's, with its logit processors, and the microdecoder's,
//! which has none.
use vstd::prelude::*;
use vstd::slice::slice_to_vec;
use vstd::string::StringExecFns;
use crate::arith;
use crate::arith::{
    binary, check, constant, relation, unary, Arithmetic, Binary, Check, Constant, Relation, Unary,
};
use crate::ranking;
use crate::ranking::{find_largest, take_largest};
use crate::rows::fill;
use crate::text;
use crate::text::append_decimal;

verus! {

/// Width of the talker's output head.
pub const TALKER_VOCAB_SIZE: usize = 3_072;

/// Width of the microdecoder's output heads.
pub const MICRODECODER_VOCAB_SIZE: usize = 2_048;

/// The talker's only stop token.
pub const CODEC_EOS_TOKEN_ID: u32 = 2_150;

/// Codes the talker emits before it may stop.
pub const TALKER_MIN_NEW_TOKENS: usize = 2;

/// Most codes the talker emits.
pub const TALKER_MAX_NEW_TOKENS: usize = 8_192;

/// Residual codes per frame.
pub const MICRODECODER_MAX_NEW_TOKENS: usize = 15;

/// Candidates a production draw chooses from.
pub const TOP_K: usize = 50;

/// The more precise arithmetic in which probabilities are summed.
pub trait Widens<A: Arithmetic>: Arithmetic {
    /// The same number, more precisely held.
    fn widen(a: A::Scalar) -> Self::Scalar;

    /// The upper fifty-three bits of `bits` as a fraction in `[0, 1)`.
    fn unit(bits: u64) -> Self::Scalar;
}

/// That `r` is a value the engine may widen `a` to.
pub open spec fn may_widen<A: Arithmetic, W: Widens<A>>(a: A::Scalar, r: W::Scalar) -> bool {
    call_ensures(<W as Widens<A>>::widen, (a,), r)
}

/// That `r` is a fraction the engine may make of `bits`.
pub open spec fn may_unit<A: Arithmetic, W: Widens<A>>(bits: u64, r: W::Scalar) -> bool {
    call_ensures(<W as Widens<A>>::unit, (bits,), r)
}

/// That both arithmetics and the step between them are functions of their arguments.
pub open spec fn pure_wide<A: Arithmetic, W: Widens<A>>() -> bool {
    arith::pure::<A>() && arith::pure::<W>() && pure_step::<A, W>()
}

/// That the step between the arithmetics is a function of its argument.
#[verifier::opaque]
pub open spec fn pure_step<A: Arithmetic, W: Widens<A>>() -> bool {
    &&& forall|a: A::Scalar, r: W::Scalar, s: W::Scalar|
        #![trigger may_widen::<A, W>(a, r), may_widen::<A, W>(a, s)]
        may_widen::<A, W>(a, r) && may_widen::<A, W>(a, s) ==> r == s
    &&& forall|b: u64, r: W::Scalar, s: W::Scalar|
        #![trigger may_unit::<A, W>(b, r), may_unit::<A, W>(b, s)]
        may_unit::<A, W>(b, r) && may_unit::<A, W>(b, s) ==> r == s
}

/// The number `a` widens to.
#[verifier::opaque]
pub open spec fn wide<A: Arithmetic, W: Widens<A>>(a: A::Scalar) -> W::Scalar {
    choose|r: W::Scalar| may_widen::<A, W>(a, r)
}

/// The fraction that `bits` makes.
#[verifier::opaque]
pub open spec fn unit_of<A: Arithmetic, W: Widens<A>>(bits: u64) -> W::Scalar {
    choose|r: W::Scalar| may_unit::<A, W>(bits, r)
}

/// Widens one number.
fn widen<A: Arithmetic, W: Widens<A>>(a: A::Scalar) -> (r: W::Scalar)
    ensures
        pure_wide::<A, W>() ==> r == wide::<A, W>(a),
{
    reveal(pure_step);
    reveal(wide);
    let r = <W as Widens<A>>::widen(a);
    assert(may_widen::<A, W>(a, r));
    r
}

/// The fraction that `bits` makes.
fn unit<A: Arithmetic, W: Widens<A>>(bits: u64) -> (r: W::Scalar)
    ensures
        pure_wide::<A, W>() ==> r == unit_of::<A, W>(bits),
{
    reveal(pure_step);
    reveal(unit_of);
    let r = <W as Widens<A>>::unit(bits);
    assert(may_unit::<A, W>(bits, r));
    r
}

/// How a token is selected.
#[derive(Clone, Copy, Debug, PartialEq, Eq, Structural)]
pub enum SamplingMode {
    /// The largest processed logit; nothing is drawn.
    CanonicalGreedy,
    /// Processors, warpers and one draw.
    Production,
}

/// Why no token was selected.
#[derive(Clone, Debug, PartialEq, Eq)]
pub enum SamplerError {
    /// The row has another length than the head.
    UnexpectedLogitCount {
        /// Which head.
        level: &'static str,
        /// Its width.
        expected: usize,
        /// Length of the row.
        actual: usize,
    },
    /// The history holds a token outside the talker's vocabulary.
    InvalidTalkerHistoryToken(u32),
    /// A logit is undefined or positive infinity.
    NonFiniteLogit {
        /// The first such logit.
        index: usize,
    },
    /// Nothing is left to select from.
    NoCandidate,
}

impl SamplerError {
    /// The message of an error.
    pub open spec fn text(&self) -> Seq<char> {
        match self {
            SamplerError::UnexpectedLogitCount { level, expected, actual } => level@
                + " sampler expected "@ + text::decimal_of(*expected as nat) + " logits, received "@
                + text::decimal_of(*actual as nat),
            SamplerError::InvalidTalkerHistoryToken(token) =>
                "talker group-0 history contains invalid token "@ + text::decimal_of(
                *token as nat,
            ),
            SamplerError::NonFiniteLogit { index } => "logit "@ + text::decimal_of(*index as nat)
                + " is not finite"@,
            SamplerError::NoCandidate => "all sampler candidates were masked"@,
        }
    }

    /// The message of an error.
    pub fn message(&self) -> (message: String)
        ensures
            message@ == self.text(),
    {
        match self {
            SamplerError::UnexpectedLogitCount { level, expected, actual } => {
                let mut message = String::from_str(level);
                message.append(" sampler expected ");
                append_decimal(&mut message, *expected);
                message.append(" logits, received ");
                append_decimal(&mut message, *actual);
                message
            },
            SamplerError::InvalidTalkerHistoryToken(token) => {
                let mut message = String::from_str(
                    "talker group-0 history contains invalid token ",
                );
                append_decimal(&mut message, *token as usize);
                message
            },
            SamplerError::NonFiniteLogit { index } => {
                let mut message = String::from_str("logit ");
                append_decimal(&mut message, *index);
                message.append(" is not finite");
                message
            },
            SamplerError::NoCandidate => String::from_str("all sampler candidates were masked"),
        }
    }
}

/// The state of the generator after one step.
pub open spec fn next_state(state: u64) -> u64 {
    state.wrapping_add(0x9e37_79b9_7f4a_7c15)
}

/// The bits a state gives.
pub open spec fn mixed(state: u64) -> u64 {
    let a = (state ^ (state >> 30)).wrapping_mul(0xbf58_476d_1ce4_e5b9);
    let b = (a ^ (a >> 27)).wrapping_mul(0x94d0_49bb_1331_11eb);
    b ^ (b >> 31)
}

/// A generator of bits from a seed.
#[derive(Clone, Debug)]
pub struct SplitMix64 {
    state: u64,
}

impl SplitMix64 {
    /// The generator's state.
    pub closed spec fn state(&self) -> u64 {
        self.state
    }

    /// Starts at a seed.
    pub fn seeded(seed: u64) -> (rng: Self)
        ensures
            rng.state() == seed,
    {
        SplitMix64 { state: seed }
    }

    /// The next sixty-four bits.
    pub fn next_u64(&mut self) -> (bits: u64)
        ensures
            final(self).state() == next_state(old(self).state()),
            bits == mixed(final(self).state()),
    {
        self.state = self.state.wrapping_add(0x9e37_79b9_7f4a_7c15);
        let mut value: u64 = self.state;
        value = (value ^ (value >> 30)).wrapping_mul(0xbf58_476d_1ce4_e5b9);
        value = (value ^ (value >> 27)).wrapping_mul(0x94d0_49bb_1331_11eb);
        value ^ (value >> 31)
    }
}

/// The first logit, from `from` on, that no row may hold.
pub open spec fn first_bad<A: Arithmetic>(logits: Seq<A::Scalar>, from: int) -> Option<int>
    decreases logits.len() - from,
{
    if from >= logits.len() {
        None
    } else if arith::chk::<A>(Check::UndefinedOrInfinite, logits[from]) {
        Some(from)
    } else {
        first_bad::<A>(logits, from + 1)
    }
}

/// The first token of a history, from `from` on, that is outside a vocabulary.
pub open spec fn first_invalid(history: Seq<u32>, vocab: int, from: int) -> Option<u32>
    decreases history.len() - from,
{
    if from >= history.len() {
        None
    } else if history[from] >= vocab {
        Some(history[from])
    } else {
        first_invalid(history, vocab, from + 1)
    }
}

/// That token `t` is among the first `n` of a history.
pub open spec fn occurs(history: Seq<u32>, n: int, t: int) -> bool {
    exists|j: int| 0 <= j < n && #[trigger] history[j] == t
}

/// One penalized score: positive scores are divided, the others multiplied.
pub open spec fn penalty_of<A: Arithmetic>(score: A::Scalar) -> A::Scalar {
    let penalty = arith::cst::<A>(Constant::RepetitionPenalty);
    if arith::rel::<A>(Relation::Less, arith::cst::<A>(Constant::Zero), score) {
        arith::bin::<A>(Binary::Div, score, penalty)
    } else {
        arith::bin::<A>(Binary::Mul, score, penalty)
    }
}

/// Every token of the history penalized, once each.
pub open spec fn penalized_of<A: Arithmetic>(
    scores: Seq<A::Scalar>,
    history: Seq<u32>,
) -> Seq<A::Scalar> {
    Seq::new(
        scores.len(),
        |t: int|
            if occurs(history, history.len() as int, t) {
                penalty_of::<A>(scores[t])
            } else {
                scores[t]
            },
    )
}

/// That the talker may not emit token `t` after `emitted` codes: the tail of the vocabulary but
/// EOS never, and EOS not before enough codes.
pub open spec fn suppressed(t: int, emitted: int) -> bool {
    if t == CODEC_EOS_TOKEN_ID {
        emitted < TALKER_MIN_NEW_TOKENS
    } else {
        t >= MICRODECODER_VOCAB_SIZE
    }
}

/// The talker's scores after its processors.
pub open spec fn processed_of<A: Arithmetic>(
    scores: Seq<A::Scalar>,
    history: Seq<u32>,
) -> Seq<A::Scalar> {
    Seq::new(
        scores.len(),
        |t: int|
            if suppressed(t, history.len() as int) {
                arith::cst::<A>(Constant::NegativeInfinity)
            } else {
                penalized_of::<A>(scores, history)[t]
            },
    )
}

/// Which tokens are out of reach.
pub open spec fn dead_of<A: Arithmetic>(scores: Seq<A::Scalar>) -> Seq<bool> {
    Seq::new(scores.len(), |t: int| !arith::chk::<A>(Check::Finite, scores[t]))
}

/// The largest score within reach, the lowest token on a tie.
pub open spec fn best_of<A: Arithmetic>(scores: Seq<A::Scalar>) -> Option<int> {
    ranking::next_largest::<A>(
        Relation::TotallyBelow,
        scores,
        dead_of::<A>(scores),
        scores.len() as int,
    )
}

/// Every score within reach over the temperature.
pub open spec fn tempered_of<A: Arithmetic>(scores: Seq<A::Scalar>) -> Seq<A::Scalar> {
    Seq::new(
        scores.len(),
        |t: int|
            if arith::chk::<A>(Check::Finite, scores[t]) {
                arith::bin::<A>(Binary::Div, scores[t], arith::cst::<A>(Constant::Temperature))
            } else {
                scores[t]
            },
    )
}

/// The token that holds the `k`-th largest score within reach.
pub open spec fn ranked_of<A: Arithmetic>(scores: Seq<A::Scalar>, k: int) -> Option<int> {
    ranking::next_largest::<A>(
        Relation::TotallyBelow,
        scores,
        ranking::taken_after::<A>(
            Relation::TotallyBelow,
            scores,
            dead_of::<A>(scores),
            k - 1,
        ),
        scores.len() as int,
    )
}

/// Where more than `k` scores are within reach, every score below the `k`-th largest put out of
/// reach.
pub open spec fn top_k_of<A: Arithmetic>(scores: Seq<A::Scalar>, k: int) -> Seq<A::Scalar> {
    match (ranked_of::<A>(scores, k), ranked_of::<A>(scores, k + 1)) {
        (Some(cut), Some(_)) => Seq::new(
            scores.len(),
            |t: int|
                if arith::rel::<A>(Relation::Less, scores[t], scores[cut]) {
                    arith::cst::<A>(Constant::NegativeInfinity)
                } else {
                    scores[t]
                },
        ),
        _ => scores,
    }
}

/// The weight of one token before normalization.
pub open spec fn weight_at<A: Arithmetic, W: Widens<A>>(
    scores: Seq<A::Scalar>,
    best: int,
    t: int,
) -> W::Scalar {
    arith::un::<W>(
        Unary::Exp,
        wide::<A, W>(arith::bin::<A>(Binary::Sub, scores[t], scores[best])),
    )
}

/// The position an executable search found.
pub open spec fn position_of(found: Option<usize>) -> Option<int> {
    match found {
        Some(t) => Some(t as int),
        None => None,
    }
}

/// How many scores are within reach.
pub open spec fn live_of<A: Arithmetic>(scores: Seq<A::Scalar>) -> int {
    scores.len() - ranking::count_set(dead_of::<A>(scores), scores.len() as int)
}

/// The weights of the `n` largest scores within reach, summed from the largest down.
pub open spec fn ranked_mass_of<A: Arithmetic, W: Widens<A>>(
    scores: Seq<A::Scalar>,
    best: int,
    n: int,
) -> W::Scalar
    decreases n,
{
    if n <= 0 {
        arith::cst::<W>(Constant::Zero)
    } else {
        let before = ranked_mass_of::<A, W>(scores, best, n - 1);
        match ranked_of::<A>(scores, n) {
            Some(t) => arith::bin::<W>(Binary::Add, before, weight_at::<A, W>(scores, best, t)),
            None => before,
        }
    }
}

/// The probabilities of the `n` largest scores within reach, summed from the largest down.
pub open spec fn ranked_cumulative_of<A: Arithmetic, W: Widens<A>>(
    scores: Seq<A::Scalar>,
    best: int,
    n: int,
) -> W::Scalar
    decreases n,
{
    if n <= 0 {
        arith::cst::<W>(Constant::Zero)
    } else {
        let before = ranked_cumulative_of::<A, W>(scores, best, n - 1);
        match ranked_of::<A>(scores, n) {
            Some(t) => arith::bin::<W>(
                Binary::Add,
                before,
                arith::bin::<W>(
                    Binary::Div,
                    weight_at::<A, W>(scores, best, t),
                    ranked_mass_of::<A, W>(scores, best, live_of::<A>(scores)),
                ),
            ),
            None => before,
        }
    }
}

/// The scores after the `n` largest have been looked at: all but the first are put out of reach
/// where those above them already hold `top_p` of the probability.
pub open spec fn nucleus_of<A: Arithmetic, W: Widens<A>>(
    scores: Seq<A::Scalar>,
    best: int,
    top_p: W::Scalar,
    n: int,
) -> Seq<A::Scalar>
    decreases n,
{
    if n <= 0 {
        scores
    } else {
        let before = nucleus_of::<A, W>(scores, best, top_p, n - 1);
        match ranked_of::<A>(scores, n) {
            Some(t) if n > 1 && arith::rel::<W>(
                Relation::AtMost,
                top_p,
                ranked_cumulative_of::<A, W>(scores, best, n - 1),
            ) => before.update(t, arith::cst::<A>(Constant::NegativeInfinity)),
            _ => before,
        }
    }
}

/// The scores that hold `top_p` of the probability, the others put out of reach.
pub open spec fn top_p_of<A: Arithmetic, W: Widens<A>>(
    scores: Seq<A::Scalar>,
    top_p: W::Scalar,
) -> Seq<A::Scalar> {
    if arith::rel::<W>(Relation::AtMost, arith::cst::<W>(Constant::One), top_p) {
        scores
    } else {
        match best_of::<A>(scores) {
            Some(best) => nucleus_of::<A, W>(scores, best, top_p, live_of::<A>(scores)),
            None => scores,
        }
    }
}

/// The scores a production draw is made from.
pub open spec fn warped_of<A: Arithmetic, W: Widens<A>>(scores: Seq<A::Scalar>) -> Seq<A::Scalar> {
    top_p_of::<A, W>(
        top_k_of::<A>(tempered_of::<A>(scores), TOP_K as int),
        arith::cst::<W>(Constant::One),
    )
}

/// The weights of the first `n` tokens within reach, summed in order.
pub open spec fn mass_of<A: Arithmetic, W: Widens<A>>(
    scores: Seq<A::Scalar>,
    best: int,
    n: int,
) -> W::Scalar
    decreases n,
{
    if n <= 0 {
        arith::cst::<W>(Constant::Zero)
    } else {
        let before = mass_of::<A, W>(scores, best, n - 1);
        if arith::chk::<A>(Check::Finite, scores[n - 1]) {
            arith::bin::<W>(Binary::Add, before, weight_at::<A, W>(scores, best, n - 1))
        } else {
            before
        }
    }
}

/// That the weights can be normalized.
pub open spec fn normalizes<W: Arithmetic>(mass: W::Scalar) -> bool {
    let zero = arith::cst::<W>(Constant::Zero);
    &&& arith::chk::<W>(Check::Finite, mass)
    &&& !(arith::rel::<W>(Relation::AtMost, mass, zero) && arith::rel::<W>(
        Relation::AtMost,
        zero,
        mass,
    ))
}

/// The probability of one token.
pub open spec fn probability_at<A: Arithmetic, W: Widens<A>>(
    scores: Seq<A::Scalar>,
    best: int,
    t: int,
) -> W::Scalar {
    arith::bin::<W>(
        Binary::Div,
        weight_at::<A, W>(scores, best, t),
        mass_of::<A, W>(scores, best, scores.len() as int),
    )
}

/// The probabilities of the first `n` tokens within reach, summed in order.
pub open spec fn cumulative_of<A: Arithmetic, W: Widens<A>>(
    scores: Seq<A::Scalar>,
    best: int,
    n: int,
) -> W::Scalar
    decreases n,
{
    if n <= 0 {
        arith::cst::<W>(Constant::Zero)
    } else {
        let before = cumulative_of::<A, W>(scores, best, n - 1);
        if arith::chk::<A>(Check::Finite, scores[n - 1]) {
            arith::bin::<W>(Binary::Add, before, probability_at::<A, W>(scores, best, n - 1))
        } else {
            before
        }
    }
}

/// The first token within reach, from `from` on, whose cumulative probability is above a draw,
/// and the last within reach where rounding leaves the draw above them all.
pub open spec fn drawn_of<A: Arithmetic, W: Widens<A>>(
    scores: Seq<A::Scalar>,
    best: int,
    draw: W::Scalar,
    from: int,
) -> Option<int>
    decreases scores.len() - from,
{
    if from >= scores.len() {
        None
    } else {
        let live = arith::chk::<A>(Check::Finite, scores[from]);
        if live && arith::rel::<W>(
            Relation::Less,
            draw,
            cumulative_of::<A, W>(scores, best, from + 1),
        ) {
            Some(from)
        } else {
            match drawn_of::<A, W>(scores, best, draw, from + 1) {
                Some(t) => Some(t),
                None => if live {
                    Some(from)
                } else {
                    None
                },
            }
        }
    }
}

/// What a selection from finished scores gives: greedily, or by one draw.
pub open spec fn choice_of<A: Arithmetic, W: Widens<A>>(
    scores: Seq<A::Scalar>,
    mode: SamplingMode,
    bits: u64,
) -> Option<int> {
    match mode {
        SamplingMode::CanonicalGreedy => best_of::<A>(scores),
        SamplingMode::Production => {
            let warped = warped_of::<A, W>(scores);
            match best_of::<A>(warped) {
                None => None,
                Some(best) => if normalizes::<W>(
                    mass_of::<A, W>(warped, best, warped.len() as int),
                ) {
                    drawn_of::<A, W>(warped, best, unit_of::<A, W>(bits), 0)
                } else {
                    None
                },
            }
        },
    }
}

/// That a selection uses up one step of the generator.
pub open spec fn draws<A: Arithmetic, W: Widens<A>>(
    scores: Seq<A::Scalar>,
    mode: SamplingMode,
) -> bool {
    &&& mode == SamplingMode::Production
    &&& match best_of::<A>(warped_of::<A, W>(scores)) {
        None => false,
        Some(best) => normalizes::<W>(
            mass_of::<A, W>(warped_of::<A, W>(scores), best, scores.len() as int),
        ),
    }
}

/// One selection asked of a sampler.
pub enum Ask<S> {
    /// A primary code.
    Talker {
        /// The row of logits.
        logits: Seq<S>,
        /// The primary codes so far.
        history: Seq<u32>,
        /// How to select.
        mode: SamplingMode,
    },
    /// A residual code.
    Microdecoder {
        /// The row of logits.
        logits: Seq<S>,
        /// How to select.
        mode: SamplingMode,
    },
}

impl<S> Ask<S> {
    /// How to select.
    pub open spec fn mode(&self) -> SamplingMode {
        match *self {
            Ask::Talker { mode, .. } => mode,
            Ask::Microdecoder { mode, .. } => mode,
        }
    }

    /// That a selection is tried at all.
    pub open spec fn sound<A: Arithmetic<Scalar = S>>(&self) -> bool {
        match *self {
            Ask::Talker { logits, history, .. } => {
                &&& logits.len() == TALKER_VOCAB_SIZE
                &&& first_bad::<A>(logits, 0) is None
                &&& first_invalid(history, TALKER_VOCAB_SIZE as int, 0) is None
            },
            Ask::Microdecoder { logits, .. } => {
                &&& logits.len() == MICRODECODER_VOCAB_SIZE
                &&& first_bad::<A>(logits, 0) is None
            },
        }
    }

    /// The scores to select from.
    pub open spec fn scores<A: Arithmetic<Scalar = S>>(&self) -> Seq<S> {
        match *self {
            Ask::Talker { logits, history, .. } => processed_of::<A>(logits, history),
            Ask::Microdecoder { logits, .. } => logits,
        }
    }

    /// What a sampler in `state` selects, where it selects anything.
    pub open spec fn chosen<A: Arithmetic<Scalar = S>, W: Widens<A>>(&self, state: u64) -> Option<
        int,
    > {
        if self.sound::<A>() {
            choice_of::<A, W>(self.scores::<A>(), self.mode(), mixed(next_state(state)))
        } else {
            None
        }
    }

    /// The state a sampler in `state` is left in.
    pub open spec fn after<A: Arithmetic<Scalar = S>, W: Widens<A>>(&self, state: u64) -> u64 {
        if self.sound::<A>() && draws::<A, W>(self.scores::<A>(), self.mode()) {
            next_state(state)
        } else {
            state
        }
    }
}

/// What a sampler was asked, what it gave and the states it went through.
pub open spec fn sampled<A: Arithmetic, W: Widens<A>>(
    asks: Seq<Ask<A::Scalar>>,
    given: Seq<Option<int>>,
    states: Seq<u64>,
) -> bool {
    &&& given.len() == asks.len()
    &&& states.len() == asks.len() + 1
    &&& forall|i: int|
        #![trigger asks[i]]
        0 <= i < asks.len() ==> {
            &&& given[i] == asks[i].chosen::<A, W>(states[i])
            &&& states[i + 1] == asks[i].after::<A, W>(states[i])
        }
}

/// The state `n` draws after `state`.
pub open spec fn drawn_from(state: u64, n: int) -> u64
    decreases n,
{
    if n <= 0 {
        state
    } else {
        next_state(drawn_from(state, n - 1))
    }
}

/// How many of the first `n` selections were random and gave a token.
pub open spec fn drawn_tokens<S>(asks: Seq<Ask<S>>, given: Seq<Option<int>>, n: int) -> int
    decreases n,
{
    if n <= 0 {
        0
    } else {
        drawn_tokens(asks, given, n - 1) + if asks[n - 1].mode() == SamplingMode::Production
            && given[n - 1] is Some {
            1int
        } else {
            0
        }
    }
}

/// Refuses a row of the wrong length, and one with an undefined or infinite logit.
fn ensure_logits<A: Arithmetic>(
    level: &'static str,
    logits: &[A::Scalar],
    expected: usize,
) -> (result: Result<(), SamplerError>)
    ensures
        match result {
            Ok(()) => {
                &&& logits@.len() == expected
                &&& arith::pure::<A>() ==> first_bad::<A>(logits@, 0) is None
            },
            Err(SamplerError::UnexpectedLogitCount { level: l, expected: e, actual }) => {
                &&& logits@.len() != expected
                &&& l == level
                &&& e == expected
                &&& actual == logits@.len()
            },
            Err(SamplerError::NonFiniteLogit { index }) => {
                &&& logits@.len() == expected
                &&& index < logits@.len()
                &&& arith::pure::<A>() ==> first_bad::<A>(logits@, 0) == Some(index as int)
            },
            Err(_) => false,
        },
{
    if logits.len() != expected {
        return Err(
            SamplerError::UnexpectedLogitCount { level, expected, actual: logits.len() },
        );
    }
    for index in 0..logits.len()
        invariant
            logits@.len() == expected,
            arith::pure::<A>() ==> first_bad::<A>(logits@, 0) == first_bad::<A>(
                logits@,
                index as int,
            ),
    {
        if check::<A>(Check::UndefinedOrInfinite, logits[index]) {
            return Err(SamplerError::NonFiniteLogit { index });
        }
    }
    Ok(())
}

/// Applies the talker's processors: the repetition penalty, then the suppressed tokens.
fn apply_talker_processors<A: Arithmetic>(scores: &[A::Scalar], history: &[u32]) -> (result: Result<
    Vec<A::Scalar>,
    SamplerError,
>)
    requires
        scores@.len() == TALKER_VOCAB_SIZE,
    ensures
        match result {
            Ok(processed) => {
                &&& first_invalid(history@, TALKER_VOCAB_SIZE as int, 0) is None
                &&& processed@.len() == scores@.len()
                &&& arith::pure::<A>() ==> processed@ == processed_of::<A>(scores@, history@)
            },
            Err(SamplerError::InvalidTalkerHistoryToken(token)) => first_invalid(
                history@,
                TALKER_VOCAB_SIZE as int,
                0,
            ) == Some(token),
            Err(_) => false,
        },
{
    let zero = constant::<A>(Constant::Zero);
    let penalty = constant::<A>(Constant::RepetitionPenalty);
    let mut penalized: Vec<bool> = fill(TALKER_VOCAB_SIZE, false);
    for i in 0..history.len()
        invariant
            penalized@.len() == TALKER_VOCAB_SIZE,
            first_invalid(history@, TALKER_VOCAB_SIZE as int, 0) == first_invalid(
                history@,
                TALKER_VOCAB_SIZE as int,
                i as int,
            ),
            forall|t: int|
                0 <= t < TALKER_VOCAB_SIZE ==> #[trigger] penalized@[t] == occurs(
                    history@,
                    i as int,
                    t,
                ),
    {
        let token: u32 = history[i];
        if token as usize >= TALKER_VOCAB_SIZE {
            return Err(SamplerError::InvalidTalkerHistoryToken(token));
        }
        let ghost before = penalized@;
        penalized[token as usize] = true;
        proof {
            assert forall|t: int| 0 <= t < TALKER_VOCAB_SIZE implies #[trigger] penalized@[t]
                == occurs(history@, i + 1, t) by {
                if t == token {
                    assert(history@[i as int] == t);
                } else {
                    assert(penalized@[t] == before[t]);
                    if occurs(history@, i + 1, t) {
                        let j = choose|j: int| 0 <= j < i + 1 && #[trigger] history@[j] == t;
                        assert(j < i);
                    }
                }
            }
        }
    }
    let unreachable = constant::<A>(Constant::NegativeInfinity);
    let eos: usize = CODEC_EOS_TOKEN_ID as usize;
    let emitted: usize = history.len();
    let mut processed: Vec<A::Scalar> = Vec::new();
    for t in 0..TALKER_VOCAB_SIZE
        invariant
            scores@.len() == TALKER_VOCAB_SIZE,
            penalized@.len() == TALKER_VOCAB_SIZE,
            eos == CODEC_EOS_TOKEN_ID,
            emitted == history@.len(),
            arith::pure::<A>() ==> zero == arith::cst::<A>(Constant::Zero),
            arith::pure::<A>() ==> penalty == arith::cst::<A>(Constant::RepetitionPenalty),
            arith::pure::<A>() ==> unreachable == arith::cst::<A>(Constant::NegativeInfinity),
            forall|u: int|
                0 <= u < TALKER_VOCAB_SIZE ==> #[trigger] penalized@[u] == occurs(
                    history@,
                    history@.len() as int,
                    u,
                ),
            processed@.len() == t,
            arith::pure::<A>() ==> forall|u: int|
                0 <= u < t ==> #[trigger] processed@[u] == processed_of::<A>(scores@, history@)[u],
    {
        let score = if penalized[t] {
            if relation::<A>(Relation::Less, zero, scores[t]) {
                binary::<A>(Binary::Div, scores[t], penalty)
            } else {
                binary::<A>(Binary::Mul, scores[t], penalty)
            }
        } else {
            scores[t]
        };
        let masked = if t == eos {
            emitted < TALKER_MIN_NEW_TOKENS
        } else {
            t >= MICRODECODER_VOCAB_SIZE
        };
        processed.push(
            if masked {
                unreachable
            } else {
                score
            },
        );
    }
    proof {
        if arith::pure::<A>() {
            assert(processed@ =~= processed_of::<A>(scores@, history@));
        }
    }
    Ok(processed)
}

/// Marks the tokens out of reach.
fn dead_marks<A: Arithmetic>(scores: &[A::Scalar]) -> (dead: Vec<bool>)
    ensures
        dead@.len() == scores@.len(),
        arith::pure::<A>() ==> dead@ == dead_of::<A>(scores@),
{
    let mut dead: Vec<bool> = Vec::new();
    for t in 0..scores.len()
        invariant
            dead@.len() == t,
            arith::pure::<A>() ==> forall|u: int|
                0 <= u < t ==> #[trigger] dead@[u] == dead_of::<A>(scores@)[u],
    {
        dead.push(!check::<A>(Check::Finite, scores[t]));
    }
    proof {
        if arith::pure::<A>() {
            assert(dead@ =~= dead_of::<A>(scores@));
        }
    }
    dead
}

/// The largest score within reach, the lowest token on a tie.
fn argmax<A: Arithmetic>(scores: &[A::Scalar]) -> (best: Option<usize>)
    ensures
        best matches Some(t) ==> t < scores@.len(),
        arith::pure::<A>() ==> match best {
            Some(t) => best_of::<A>(scores@) == Some(t as int),
            None => best_of::<A>(scores@) is None,
        },
{
    let dead = dead_marks::<A>(scores);
    find_largest::<A>(Relation::TotallyBelow, scores, &dead)
}

/// Puts every score below the `k`-th largest out of reach.
fn apply_top_k<A: Arithmetic>(scores: &[A::Scalar], k: usize) -> (out: Vec<A::Scalar>)
    requires
        k > 0,
    ensures
        out@.len() == scores@.len(),
        arith::pure::<A>() ==> out@ == top_k_of::<A>(scores@, k as int),
{
    let dead = dead_marks::<A>(scores);
    let mut taken = take_largest::<A>(Relation::TotallyBelow, scores, dead, k - 1);
    let cut: usize = match find_largest::<A>(Relation::TotallyBelow, scores, &taken) {
        None => {
            return slice_to_vec(scores);
        },
        Some(cut) => cut,
    };
    taken[cut] = true;
    proof {
        if arith::pure::<A>() {
            assert(ranked_of::<A>(scores@, k as int) == Some(cut as int));
            assert(taken@ == ranking::taken_after::<A>(
                Relation::TotallyBelow,
                scores@,
                dead_of::<A>(scores@),
                k as int,
            ));
        }
    }
    if find_largest::<A>(Relation::TotallyBelow, scores, &taken).is_none() {
        return slice_to_vec(scores);
    }
    let cutoff = scores[cut];
    let unreachable = constant::<A>(Constant::NegativeInfinity);
    let mut out: Vec<A::Scalar> = Vec::new();
    for t in 0..scores.len()
        invariant
            cut < scores@.len(),
            cutoff == scores@[cut as int],
            arith::pure::<A>() ==> ranked_of::<A>(scores@, k as int) == Some(cut as int),
            arith::pure::<A>() ==> ranked_of::<A>(scores@, k + 1) is Some,
            arith::pure::<A>() ==> unreachable == arith::cst::<A>(Constant::NegativeInfinity),
            out@.len() == t,
            arith::pure::<A>() ==> forall|u: int|
                0 <= u < t ==> #[trigger] out@[u] == top_k_of::<A>(scores@, k as int)[u],
    {
        out.push(
            if relation::<A>(Relation::Less, scores[t], cutoff) {
                unreachable
            } else {
                scores[t]
            },
        );
    }
    proof {
        if arith::pure::<A>() {
            assert(out@ =~= top_k_of::<A>(scores@, k as int));
        }
    }
    out
}

/// The weight of one token before normalization.
fn weigh<A: Arithmetic, W: Widens<A>>(scores: &[A::Scalar], best: usize, token: usize) -> (weight:
    W::Scalar)
    requires
        best < scores@.len(),
        token < scores@.len(),
    ensures
        pure_wide::<A, W>() ==> weight == weight_at::<A, W>(scores@, best as int, token as int),
{
    let gap = binary::<A>(Binary::Sub, scores[token], scores[best]);
    unary::<W>(Unary::Exp, widen::<A, W>(gap))
}

/// How many scores are within reach.
fn count_live(dead: &Vec<bool>) -> (live: usize)
    ensures
        live == dead@.len() - ranking::count_set(dead@, dead@.len() as int),
{
    let mut live: usize = 0;
    for t in 0..dead.len()
        invariant
            live <= t,
            live == t - ranking::count_set(dead@, t as int),
    {
        if !dead[t] {
            live = live + 1;
        }
    }
    live
}

/// The tokens that hold the `count` largest scores within reach, from the largest down.
fn rank<A: Arithmetic>(scores: &[A::Scalar], dead: Vec<bool>, count: usize) -> (order: Vec<
    Option<usize>,
>)
    requires
        dead@.len() == scores@.len(),
    ensures
        order@.len() == count,
        forall|i: int|
            0 <= i < count ==> (#[trigger] order@[i] matches Some(t) ==> t < scores@.len()),
        arith::pure::<A>() && dead@ == dead_of::<A>(scores@) ==> forall|i: int|
            0 <= i < count ==> position_of(#[trigger] order@[i]) == ranked_of::<A>(scores@, i + 1),
{
    let ghost start = dead@;
    let mut taken = dead;
    let mut order: Vec<Option<usize>> = Vec::new();
    for n in 0..count
        invariant
            start.len() == scores@.len(),
            taken@.len() == scores@.len(),
            order@.len() == n,
            forall|i: int|
                0 <= i < n ==> (#[trigger] order@[i] matches Some(t) ==> t < scores@.len()),
            arith::pure::<A>() && start == dead_of::<A>(scores@) ==> {
                &&& taken@ == ranking::taken_after::<A>(
                    Relation::TotallyBelow,
                    scores@,
                    start,
                    n as int,
                )
                &&& forall|i: int|
                    0 <= i < n ==> position_of(#[trigger] order@[i]) == ranked_of::<A>(
                        scores@,
                        i + 1,
                    )
            },
    {
        let next = find_largest::<A>(Relation::TotallyBelow, scores, &taken);
        match next {
            Some(t) => {
                taken[t] = true;
            },
            None => {},
        }
        order.push(next);
    }
    order
}

/// Keeps the largest scores that together hold `top_p` of the probability, and puts the others
/// out of reach.
pub fn apply_top_p<A: Arithmetic, W: Widens<A>>(scores: &[A::Scalar], top_p: W::Scalar) -> (out:
    Vec<A::Scalar>)
    ensures
        out@.len() == scores@.len(),
        pure_wide::<A, W>() ==> out@ == top_p_of::<A, W>(scores@, top_p),
{
    let mut out = slice_to_vec(scores);
    if relation::<W>(Relation::AtMost, constant::<W>(Constant::One), top_p) {
        return out;
    }
    let best: usize = match argmax::<A>(scores) {
        None => {
            return out;
        },
        Some(best) => best,
    };
    let dead = dead_marks::<A>(scores);
    let live: usize = count_live(&dead);
    let order = rank::<A>(scores, dead, live);
    let mut mass = constant::<W>(Constant::Zero);
    for n in 0..live
        invariant
            best < scores@.len(),
            order@.len() == live,
            forall|i: int|
                0 <= i < live ==> (#[trigger] order@[i] matches Some(t) ==> t < scores@.len()),
            pure_wide::<A, W>() ==> {
                &&& mass == ranked_mass_of::<A, W>(scores@, best as int, n as int)
                &&& forall|i: int|
                    0 <= i < live ==> position_of(#[trigger] order@[i]) == ranked_of::<A>(
                        scores@,
                        i + 1,
                    )
            },
    {
        match order[n] {
            Some(t) => {
                mass = binary::<W>(Binary::Add, mass, weigh::<A, W>(scores, best, t));
            },
            None => {},
        }
    }
    let unreachable = constant::<A>(Constant::NegativeInfinity);
    let mut cumulative = constant::<W>(Constant::Zero);
    for n in 0..live
        invariant
            best < scores@.len(),
            out@.len() == scores@.len(),
            order@.len() == live,
            forall|i: int|
                0 <= i < live ==> (#[trigger] order@[i] matches Some(t) ==> t < scores@.len()),
            pure_wide::<A, W>() ==> {
                &&& live == live_of::<A>(scores@)
                &&& unreachable == arith::cst::<A>(Constant::NegativeInfinity)
                &&& mass == ranked_mass_of::<A, W>(scores@, best as int, live as int)
                &&& cumulative == ranked_cumulative_of::<A, W>(scores@, best as int, n as int)
                &&& out@ == nucleus_of::<A, W>(scores@, best as int, top_p, n as int)
                &&& forall|i: int|
                    0 <= i < live ==> position_of(#[trigger] order@[i]) == ranked_of::<A>(
                        scores@,
                        i + 1,
                    )
            },
    {
        match order[n] {
            Some(t) => {
                let probability = binary::<W>(Binary::Div, weigh::<A, W>(scores, best, t), mass);
                if n > 0 && relation::<W>(Relation::AtMost, top_p, cumulative) {
                    out[t] = unreachable;
                }
                cumulative = binary::<W>(Binary::Add, cumulative, probability);
            },
            None => {},
        }
    }
    out
}

/// Applies temperature, then the limit on candidates, then that on their probability.
fn apply_sampling_warpers<A: Arithmetic, W: Widens<A>>(scores: &[A::Scalar]) -> (out: Vec<
    A::Scalar,
>)
    ensures
        out@.len() == scores@.len(),
        pure_wide::<A, W>() ==> out@ == warped_of::<A, W>(scores@),
{
    let temperature = constant::<A>(Constant::Temperature);
    let mut tempered: Vec<A::Scalar> = Vec::new();
    for t in 0..scores.len()
        invariant
            arith::pure::<A>() ==> temperature == arith::cst::<A>(Constant::Temperature),
            tempered@.len() == t,
            arith::pure::<A>() ==> forall|u: int|
                0 <= u < t ==> #[trigger] tempered@[u] == tempered_of::<A>(scores@)[u],
    {
        tempered.push(
            if check::<A>(Check::Finite, scores[t]) {
                binary::<A>(Binary::Div, scores[t], temperature)
            } else {
                scores[t]
            },
        );
    }
    proof {
        if arith::pure::<A>() {
            assert(tempered@ =~= tempered_of::<A>(scores@));
        }
    }
    let limited = apply_top_k::<A>(tempered.as_slice(), TOP_K);
    apply_top_p::<A, W>(limited.as_slice(), constant::<W>(Constant::One))
}

/// The weights of a row, and their sum.
struct Weights<S> {
    /// The weight of every token within reach.
    values: Vec<Option<S>>,
    /// Their sum.
    mass: S,
}

/// The weights of a row, where they can be normalized.
fn softmax_finite<A: Arithmetic, W: Widens<A>>(scores: &[A::Scalar]) -> (result: Option<
    Weights<W::Scalar>,
>)
    ensures
        match result {
            Some(weights) => {
                &&& weights.values@.len() == scores@.len()
                &&& pure_wide::<A, W>() ==> {
                    let best = best_of::<A>(scores@)->0;
                    &&& best_of::<A>(scores@) is Some
                    &&& weights.mass == mass_of::<A, W>(scores@, best, scores@.len() as int)
                    &&& normalizes::<W>(weights.mass)
                    &&& forall|t: int|
                        0 <= t < scores@.len() ==> #[trigger] weights.values@[t] == (
                        if arith::chk::<A>(Check::Finite, scores@[t]) {
                            Some(weight_at::<A, W>(scores@, best, t))
                        } else {
                            None
                        })
                }
            },
            None => pure_wide::<A, W>() ==> match best_of::<A>(scores@) {
                None => true,
                Some(best) => !normalizes::<W>(
                    mass_of::<A, W>(scores@, best, scores@.len() as int),
                ),
            },
        },
{
    let best: usize = match argmax::<A>(scores) {
        None => {
            return None;
        },
        Some(best) => best,
    };
    let zero = constant::<W>(Constant::Zero);
    let mut mass = zero;
    let mut values: Vec<Option<W::Scalar>> = Vec::new();
    for t in 0..scores.len()
        invariant
            best < scores@.len(),
            values@.len() == t,
            pure_wide::<A, W>() ==> mass == mass_of::<A, W>(scores@, best as int, t as int),
            pure_wide::<A, W>() ==> forall|u: int|
                0 <= u < t ==> #[trigger] values@[u] == (if arith::chk::<A>(
                    Check::Finite,
                    scores@[u],
                ) {
                    Some(weight_at::<A, W>(scores@, best as int, u))
                } else {
                    None
                }),
    {
        if check::<A>(Check::Finite, scores[t]) {
            let value = weigh::<A, W>(scores, best, t);
            mass = binary::<W>(Binary::Add, mass, value);
            values.push(Some(value));
        } else {
            values.push(None);
        }
    }
    if !check::<W>(Check::Finite, mass) {
        return None;
    }
    if relation::<W>(Relation::AtMost, mass, zero) && relation::<W>(Relation::AtMost, zero, mass) {
        return None;
    }
    Some(Weights { values, mass })
}

/// The probability that a production draw selects `token`, and zero where it cannot.
pub fn production_probability<A: Arithmetic, W: Widens<A>>(
    logits: &[A::Scalar],
    token: usize,
) -> (probability: W::Scalar)
    ensures
        pure_wide::<A, W>() ==> probability == ({
            let scores = warped_of::<A, W>(logits@);
            let zero = arith::cst::<W>(Constant::Zero);
            match best_of::<A>(scores) {
                None => zero,
                Some(best) => if normalizes::<W>(
                    mass_of::<A, W>(scores, best, scores.len() as int),
                ) && token < scores.len() && arith::chk::<A>(
                    Check::Finite,
                    scores[token as int],
                ) {
                    probability_at::<A, W>(scores, best, token as int)
                } else {
                    zero
                },
            }
        }),
{
    let scores = apply_sampling_warpers::<A, W>(logits);
    let zero = constant::<W>(Constant::Zero);
    match softmax_finite::<A, W>(scores.as_slice()) {
        None => zero,
        Some(weights) => {
            if token >= weights.values.len() {
                return zero;
            }
            match weights.values[token] {
                None => zero,
                Some(value) => binary::<W>(Binary::Div, value, weights.mass),
            }
        },
    }
}

/// A sampler whose draws are reproducible from its seed.
#[derive(Clone, Debug)]
pub struct QwenSampler {
    rng: SplitMix64,
}

impl QwenSampler {
    /// The state of the generator.
    pub closed spec fn state(&self) -> u64 {
        self.rng.state()
    }

    /// Starts at a seed.
    pub fn seeded(seed: u64) -> (sampler: Self)
        ensures
            sampler.state() == seed,
    {
        QwenSampler { rng: SplitMix64::seeded(seed) }
    }

    /// One production draw from warped scores.
    fn sample<A: Arithmetic, W: Widens<A>>(&mut self, scores: &[A::Scalar]) -> (token: Option<
        usize,
    >)
        ensures
            token matches Some(t) ==> t < scores@.len(),
            final(self).state() == old(self).state() || final(self).state() == next_state(
                old(self).state(),
            ),
            pure_wide::<A, W>() ==> ({
                let drawn = match best_of::<A>(scores@) {
                    None => None,
                    Some(best) => if normalizes::<W>(
                        mass_of::<A, W>(scores@, best, scores@.len() as int),
                    ) {
                        Some(best)
                    } else {
                        None
                    },
                };
                let bits = mixed(next_state(old(self).state()));
                match drawn {
                    None => token is None && final(self).state() == old(self).state(),
                    Some(best) => {
                        &&& final(self).state() == next_state(old(self).state())
                        &&& match token {
                            Some(t) => drawn_of::<A, W>(
                                scores@,
                                best,
                                unit_of::<A, W>(bits),
                                0,
                            ) == Some(t as int),
                            None => drawn_of::<A, W>(
                                scores@,
                                best,
                                unit_of::<A, W>(bits),
                                0,
                            ) is None,
                        }
                    },
                }
            }),
    {
        let weights = match softmax_finite::<A, W>(scores) {
            None => {
                return None;
            },
            Some(weights) => weights,
        };
        let ghost best = best_of::<A>(scores@)->0;
        let draw = unit::<A, W>(self.rng.next_u64());
        let mut cumulative = constant::<W>(Constant::Zero);
        let mut last: Option<usize> = None;
        for t in 0..scores.len()
            invariant
                weights.values@.len() == scores@.len(),
                self.state() == next_state(old(self).state()),
                last matches Some(u) ==> u < t,
                pure_wide::<A, W>() ==> {
                    &&& best_of::<A>(scores@) == Some(best)
                    &&& weights.mass == mass_of::<A, W>(scores@, best, scores@.len() as int)
                    &&& normalizes::<W>(weights.mass)
                    &&& draw == unit_of::<A, W>(mixed(self.state()))
                    &&& cumulative == cumulative_of::<A, W>(scores@, best, t as int)
                    &&& forall|u: int|
                        0 <= u < scores@.len() ==> #[trigger] weights.values@[u] == (
                        if arith::chk::<A>(Check::Finite, scores@[u]) {
                            Some(weight_at::<A, W>(scores@, best, u))
                        } else {
                            None
                        })
                    &&& drawn_of::<A, W>(scores@, best, draw, 0) == (match drawn_of::<A, W>(
                        scores@,
                        best,
                        draw,
                        t as int,
                    ) {
                        Some(u) => Some(u),
                        None => match last {
                            Some(u) => Some(u as int),
                            None => None,
                        },
                    })
                },
        {
            match weights.values[t] {
                None => {},
                Some(value) => {
                    let probability = binary::<W>(Binary::Div, value, weights.mass);
                    cumulative = binary::<W>(Binary::Add, cumulative, probability);
                    if relation::<W>(Relation::Less, draw, cumulative) {
                        return Some(t);
                    }
                    last = Some(t);
                },
            }
        }
        last
    }

    /// Selects from finished scores: greedily, or by one draw.
    fn select<A: Arithmetic, W: Widens<A>>(
        &mut self,
        scores: &[A::Scalar],
        mode: SamplingMode,
    ) -> (token: Option<usize>)
        ensures
            token matches Some(t) ==> t < scores@.len(),
            final(self).state() == old(self).state() || final(self).state() == next_state(
                old(self).state(),
            ),
            mode == SamplingMode::CanonicalGreedy ==> final(self).state() == old(self).state(),
            pure_wide::<A, W>() ==> {
                &&& final(self).state() == (if draws::<A, W>(scores@, mode) {
                    next_state(old(self).state())
                } else {
                    old(self).state()
                })
                &&& choice_of::<A, W>(
                    scores@,
                    mode,
                    mixed(next_state(old(self).state())),
                ) == (match token {
                    Some(t) => Some(t as int),
                    None => None,
                })
            },
    {
        match mode {
            SamplingMode::CanonicalGreedy => argmax::<A>(scores),
            SamplingMode::Production => {
                let warped = apply_sampling_warpers::<A, W>(scores);
                self.sample::<A, W>(warped.as_slice())
            },
        }
    }

    /// Selects the talker's next code.
    ///
    /// The history holds the codes the talker itself has emitted; residual codes have no part in
    /// the penalty.
    pub fn select_talker<A: Arithmetic, W: Widens<A>>(
        &mut self,
        logits: &[A::Scalar],
        group_zero_history: &[u32],
        mode: SamplingMode,
    ) -> (result: Result<u32, SamplerError>)
        ensures
            final(self).state() == old(self).state() || final(self).state() == next_state(
                old(self).state(),
            ),
            mode == SamplingMode::CanonicalGreedy ==> final(self).state() == old(self).state(),
            pure_wide::<A, W>() ==> ({
                let ask = Ask::Talker { logits: logits@, history: group_zero_history@, mode };
                &&& final(self).state() == ask.after::<A, W>(old(self).state())
                &&& ask.chosen::<A, W>(old(self).state()) == (match result {
                    Ok(token) => Some(token as int),
                    Err(_) => None,
                })
            }),
            match result {
                Ok(token) => {
                    &&& logits@.len() == TALKER_VOCAB_SIZE
                    &&& first_invalid(group_zero_history@, TALKER_VOCAB_SIZE as int, 0) is None
                    &&& token < TALKER_VOCAB_SIZE
                    &&& pure_wide::<A, W>() ==> {
                        let scores = processed_of::<A>(logits@, group_zero_history@);
                        &&& first_bad::<A>(logits@, 0) is None
                        &&& choice_of::<A, W>(
                            scores,
                            mode,
                            mixed(next_state(old(self).state())),
                        ) == Some(token as int)
                        &&& final(self).state() == (if draws::<A, W>(scores, mode) {
                            next_state(old(self).state())
                        } else {
                            old(self).state()
                        })
                    }
                },
                Err(SamplerError::UnexpectedLogitCount { level, expected, actual }) => {
                    &&& logits@.len() != TALKER_VOCAB_SIZE
                    &&& level@ == "talker"@
                    &&& expected == TALKER_VOCAB_SIZE
                    &&& actual == logits@.len()
                    &&& final(self).state() == old(self).state()
                },
                Err(SamplerError::NonFiniteLogit { index }) => {
                    &&& logits@.len() == TALKER_VOCAB_SIZE
                    &&& index < TALKER_VOCAB_SIZE
                    &&& arith::pure::<A>() ==> first_bad::<A>(logits@, 0) == Some(index as int)
                    &&& final(self).state() == old(self).state()
                },
                Err(SamplerError::InvalidTalkerHistoryToken(token)) => {
                    &&& logits@.len() == TALKER_VOCAB_SIZE
                    &&& arith::pure::<A>() ==> first_bad::<A>(logits@, 0) is None
                    &&& first_invalid(group_zero_history@, TALKER_VOCAB_SIZE as int, 0) == Some(
                        token,
                    )
                    &&& final(self).state() == old(self).state()
                },
                Err(SamplerError::NoCandidate) => {
                    &&& logits@.len() == TALKER_VOCAB_SIZE
                    &&& first_invalid(group_zero_history@, TALKER_VOCAB_SIZE as int, 0) is None
                    &&& pure_wide::<A, W>() ==> {
                        let scores = processed_of::<A>(logits@, group_zero_history@);
                        &&& first_bad::<A>(logits@, 0) is None
                        &&& choice_of::<A, W>(
                            scores,
                            mode,
                            mixed(next_state(old(self).state())),
                        ) is None
                        &&& final(self).state() == (if draws::<A, W>(scores, mode) {
                            next_state(old(self).state())
                        } else {
                            old(self).state()
                        })
                    }
                },
            },
    {
        match ensure_logits::<A>("talker", logits, TALKER_VOCAB_SIZE) {
            Ok(()) => {},
            Err(error) => {
                return Err(error);
            },
        }
        let scores = match apply_talker_processors::<A>(logits, group_zero_history) {
            Ok(scores) => scores,
            Err(error) => {
                return Err(error);
            },
        };
        match self.select::<A, W>(scores.as_slice(), mode) {
            Some(token) => Ok(token as u32),
            None => Err(SamplerError::NoCandidate),
        }
    }

    /// Selects one residual code. There is no history, no EOS and no processor.
    pub fn select_microdecoder<A: Arithmetic, W: Widens<A>>(
        &mut self,
        logits: &[A::Scalar],
        mode: SamplingMode,
    ) -> (result: Result<u32, SamplerError>)
        ensures
            final(self).state() == old(self).state() || final(self).state() == next_state(
                old(self).state(),
            ),
            mode == SamplingMode::CanonicalGreedy ==> final(self).state() == old(self).state(),
            pure_wide::<A, W>() ==> ({
                let ask = Ask::Microdecoder { logits: logits@, mode };
                &&& final(self).state() == ask.after::<A, W>(old(self).state())
                &&& ask.chosen::<A, W>(old(self).state()) == (match result {
                    Ok(token) => Some(token as int),
                    Err(_) => None,
                })
            }),
            match result {
                Ok(token) => {
                    &&& logits@.len() == MICRODECODER_VOCAB_SIZE
                    &&& token < MICRODECODER_VOCAB_SIZE
                    &&& pure_wide::<A, W>() ==> {
                        &&& first_bad::<A>(logits@, 0) is None
                        &&& choice_of::<A, W>(
                            logits@,
                            mode,
                            mixed(next_state(old(self).state())),
                        ) == Some(token as int)
                        &&& final(self).state() == (if draws::<A, W>(logits@, mode) {
                            next_state(old(self).state())
                        } else {
                            old(self).state()
                        })
                    }
                },
                Err(SamplerError::UnexpectedLogitCount { level, expected, actual }) => {
                    &&& logits@.len() != MICRODECODER_VOCAB_SIZE
                    &&& level@ == "microdecoder"@
                    &&& expected == MICRODECODER_VOCAB_SIZE
                    &&& actual == logits@.len()
                    &&& final(self).state() == old(self).state()
                },
                Err(SamplerError::NonFiniteLogit { index }) => {
                    &&& logits@.len() == MICRODECODER_VOCAB_SIZE
                    &&& index < MICRODECODER_VOCAB_SIZE
                    &&& arith::pure::<A>() ==> first_bad::<A>(logits@, 0) == Some(index as int)
                    &&& final(self).state() == old(self).state()
                },
                Err(SamplerError::InvalidTalkerHistoryToken(_)) => false,
                Err(SamplerError::NoCandidate) => {
                    &&& logits@.len() == MICRODECODER_VOCAB_SIZE
                    &&& pure_wide::<A, W>() ==> {
                        &&& first_bad::<A>(logits@, 0) is None
                        &&& choice_of::<A, W>(
                            logits@,
                            mode,
                            mixed(next_state(old(self).state())),
                        ) is None
                        &&& final(self).state() == (if draws::<A, W>(logits@, mode) {
                            next_state(old(self).state())
                        } else {
                            old(self).state()
                        })
                    }
                },
            },
    {
        match ensure_logits::<A>("microdecoder", logits, MICRODECODER_VOCAB_SIZE) {
            Ok(()) => {},
            Err(error) => {
                return Err(error);
            },
        }
        match self.select::<A, W>(logits, mode) {
            Some(token) => Ok(token as u32),
            None => Err(SamplerError::NoCandidate),
        }
    }
}

/// A repeated token is penalized once: only which tokens a history holds matters.
pub proof fn law_penalty_ignores_repeats<A: Arithmetic>(
    scores: Seq<A::Scalar>,
    a: Seq<u32>,
    b: Seq<u32>,
)
    requires
        forall|t: int|
            0 <= t < scores.len() ==> #[trigger] occurs(a, a.len() as int, t) == occurs(
                b,
                b.len() as int,
                t,
            ),
    ensures
        penalized_of::<A>(scores, a) == penalized_of::<A>(scores, b),
{
    assert forall|t: int| 0 <= t < scores.len() implies #[trigger] penalized_of::<A>(scores, a)[t]
        == penalized_of::<A>(scores, b)[t] by {
        assert(occurs(a, a.len() as int, t) == occurs(b, b.len() as int, t));
    }
    assert(penalized_of::<A>(scores, a) =~= penalized_of::<A>(scores, b));
}

/// A limit of the whole probability keeps every score.
pub proof fn law_whole_probability_keeps_every_score<A: Arithmetic, W: Widens<A>>(
    scores: Seq<A::Scalar>,
    top_p: W::Scalar,
)
    requires
        arith::rel::<W>(Relation::AtMost, arith::cst::<W>(Constant::One), top_p),
    ensures
        top_p_of::<A, W>(scores, top_p) == scores,
{
}

/// The limit on probability moves no score: one is kept, or put out of reach.
proof fn lemma_nucleus_keeps_or_drops<A: Arithmetic, W: Widens<A>>(
    scores: Seq<A::Scalar>,
    best: int,
    top_p: W::Scalar,
    n: int,
)
    ensures
        nucleus_of::<A, W>(scores, best, top_p, n).len() == scores.len(),
        forall|t: int|
            0 <= t < scores.len() ==> {
                let kept = #[trigger] nucleus_of::<A, W>(scores, best, top_p, n)[t];
                kept == scores[t] || kept == arith::cst::<A>(Constant::NegativeInfinity)
            },
    decreases n,
{
    if n > 0 {
        lemma_nucleus_keeps_or_drops::<A, W>(scores, best, top_p, n - 1);
        let dead = dead_of::<A>(scores);
        ranking::lemma_taken_len::<A>(Relation::TotallyBelow, scores, dead, n - 1);
        ranking::lemma_next_is_left::<A>(
            Relation::TotallyBelow,
            scores,
            ranking::taken_after::<A>(Relation::TotallyBelow, scores, dead, n - 1),
            scores.len() as int,
        );
    }
}

/// The warpers keep the length of a row, and what is out of reach stays there.
proof fn lemma_warped_stays_dead<A: Arithmetic, W: Widens<A>>(scores: Seq<A::Scalar>)
    ensures
        warped_of::<A, W>(scores).len() == scores.len(),
        !arith::chk::<A>(Check::Finite, arith::cst::<A>(Constant::NegativeInfinity)) ==> forall|
            t: int,
        |
            0 <= t < scores.len() && scores[t] == arith::cst::<A>(Constant::NegativeInfinity)
                ==> #[trigger] warped_of::<A, W>(scores)[t] == scores[t],
{
    let limited = top_k_of::<A>(tempered_of::<A>(scores), TOP_K as int);
    if let Some(best) = best_of::<A>(limited) {
        lemma_nucleus_keeps_or_drops::<A, W>(
            limited,
            best,
            arith::cst::<W>(Constant::One),
            live_of::<A>(limited),
        );
    }
}

/// What is selected is a token of the row.
pub proof fn law_choice_is_in_the_row<A: Arithmetic, W: Widens<A>>(
    scores: Seq<A::Scalar>,
    mode: SamplingMode,
    bits: u64,
)
    ensures
        choice_of::<A, W>(scores, mode, bits) matches Some(t) ==> 0 <= t < scores.len(),
{
    let warped = warped_of::<A, W>(scores);
    lemma_best_is_live::<A>(scores);
    lemma_best_is_live::<A>(warped);
    lemma_warped_stays_dead::<A, W>(scores);
    if let Some(best) = best_of::<A>(warped) {
        lemma_drawn_is_live::<A, W>(warped, best, unit_of::<A, W>(bits), 0);
    }
}

/// The largest score within reach is within reach.
proof fn lemma_best_is_live<A: Arithmetic>(scores: Seq<A::Scalar>)
    ensures
        best_of::<A>(scores) matches Some(t) ==> 0 <= t < scores.len() && arith::chk::<A>(
            Check::Finite,
            scores[t],
        ),
{
    ranking::lemma_next_is_left::<A>(
        Relation::TotallyBelow,
        scores,
        dead_of::<A>(scores),
        scores.len() as int,
    );
}

/// What is drawn is within reach.
proof fn lemma_drawn_is_live<A: Arithmetic, W: Widens<A>>(
    scores: Seq<A::Scalar>,
    best: int,
    draw: W::Scalar,
    from: int,
)
    requires
        0 <= from,
    ensures
        drawn_of::<A, W>(scores, best, draw, from) matches Some(t) ==> from <= t < scores.len()
            && arith::chk::<A>(Check::Finite, scores[t]),
    decreases scores.len() - from,
{
    if from < scores.len() {
        lemma_drawn_is_live::<A, W>(scores, best, draw, from + 1);
    }
}

/// Where a token is within reach, one is drawn.
proof fn lemma_reach_is_drawn<A: Arithmetic, W: Widens<A>>(
    scores: Seq<A::Scalar>,
    best: int,
    draw: W::Scalar,
    from: int,
    t: int,
)
    requires
        0 <= from <= t < scores.len(),
        arith::chk::<A>(Check::Finite, scores[t]),
    ensures
        drawn_of::<A, W>(scores, best, draw, from) is Some,
    decreases scores.len() - from,
{
    if from < t {
        lemma_reach_is_drawn::<A, W>(scores, best, draw, from + 1, t);
    }
}

/// A greedy selection draws nothing, nor does one that gives nothing; any other draws once.
pub proof fn law_only_a_drawn_token_draws<A: Arithmetic, W: Widens<A>>(
    ask: Ask<A::Scalar>,
    state: u64,
)
    ensures
        ask.after::<A, W>(state) == if ask.mode() == SamplingMode::Production && ask.chosen::<A, W>(
            state,
        ) is Some {
            next_state(state)
        } else {
            state
        },
{
    let scores = ask.scores::<A>();
    let warped = warped_of::<A, W>(scores);
    lemma_best_is_live::<A>(warped);
    lemma_warped_stays_dead::<A, W>(scores);
    if let Some(best) = best_of::<A>(warped) {
        lemma_reach_is_drawn::<A, W>(
            warped,
            best,
            unit_of::<A, W>(mixed(next_state(state))),
            0,
            best,
        );
    }
}

/// Over any run of selections, a sampler is left where as many draws leave it as tokens were drawn:
/// greedy selections and those that give nothing count for nothing.
pub proof fn law_draws_are_counted<A: Arithmetic, W: Widens<A>>(
    asks: Seq<Ask<A::Scalar>>,
    given: Seq<Option<int>>,
    states: Seq<u64>,
    n: int,
)
    requires
        sampled::<A, W>(asks, given, states),
        0 <= n <= asks.len(),
    ensures
        0 <= drawn_tokens(asks, given, n),
        states[n] == drawn_from(states[0], drawn_tokens(asks, given, n)),
    decreases n,
{
    if n > 0 {
        law_draws_are_counted::<A, W>(asks, given, states, n - 1);
        law_only_a_drawn_token_draws::<A, W>(asks[n - 1], states[n - 1]);
    }
}

/// Samplers of equal seeds that are asked the same give the same, however long they are asked.
pub proof fn law_equal_seeds_select_alike<A: Arithmetic, W: Widens<A>>(
    asks: Seq<Ask<A::Scalar>>,
    given: Seq<Option<int>>,
    states: Seq<u64>,
    other_given: Seq<Option<int>>,
    other_states: Seq<u64>,
    n: int,
)
    requires
        sampled::<A, W>(asks, given, states),
        sampled::<A, W>(asks, other_given, other_states),
        states[0] == other_states[0],
        0 <= n <= asks.len(),
    ensures
        states[n] == other_states[n],
        given.take(n) == other_given.take(n),
    decreases n,
{
    if n > 0 {
        law_equal_seeds_select_alike::<A, W>(
            asks,
            given,
            states,
            other_given,
            other_states,
            n - 1,
        );
        let ask = asks[n - 1];
        assert(given.take(n) =~= given.take(n - 1).push(given[n - 1]));
        assert(other_given.take(n) =~= other_given.take(n - 1).push(other_given[n - 1]));
    } else {
        assert(given.take(n) =~= other_given.take(n));
    }
}

/// Where negative infinity is not a finite number, the talker never emits a suppressed token:
/// nothing past the codes but EOS, and no EOS before enough codes.
pub proof fn law_suppressed_tokens_are_never_selected<A: Arithmetic, W: Widens<A>>(
    logits: Seq<A::Scalar>,
    history: Seq<u32>,
    mode: SamplingMode,
    bits: u64,
)
    requires
        !arith::chk::<A>(Check::Finite, arith::cst::<A>(Constant::NegativeInfinity)),
    ensures
        choice_of::<A, W>(processed_of::<A>(logits, history), mode, bits) matches Some(t)
            ==> !suppressed(t, history.len() as int),
{
    let scores = processed_of::<A>(logits, history);
    let warped = warped_of::<A, W>(scores);
    lemma_best_is_live::<A>(scores);
    lemma_best_is_live::<A>(warped);
    lemma_warped_stays_dead::<A, W>(scores);
    if let Some(best) = best_of::<A>(warped) {
        lemma_drawn_is_live::<A, W>(warped, best, unit_of::<A, W>(bits), 0);
    }
    if let Some(t) = choice_of::<A, W>(scores, mode, bits) {
        if suppressed(t, history.len() as int) {
            assert(0 <= t < scores.len());
            assert(scores[t] == arith::cst::<A>(Constant::NegativeInfinity));
            assert(tempered_of::<A>(scores)[t] == scores[t]);
            assert(warped[t] == scores[t]);
        }
    }
}

/// Where the total order is an order, greedy selection takes the largest finite score, and the
/// lowest token on a tie.
pub proof fn law_greedy_takes_the_largest<A: Arithmetic>(scores: Seq<A::Scalar>)
    requires
        ranking::weakly_ordered::<A>(Relation::TotallyBelow, scores),
    ensures
        match best_of::<A>(scores) {
            Some(t) => {
                &&& forall|u: int|
                    0 <= u < scores.len() && arith::chk::<A>(Check::Finite, scores[u])
                        ==> !#[trigger] arith::rel::<A>(
                        Relation::TotallyBelow,
                        scores[t],
                        scores[u],
                    )
                &&& forall|u: int|
                    0 <= u < t && arith::chk::<A>(Check::Finite, scores[u])
                        ==> #[trigger] arith::rel::<A>(
                        Relation::TotallyBelow,
                        scores[u],
                        scores[t],
                    )
            },
            None => forall|u: int|
                0 <= u < scores.len() ==> !arith::chk::<A>(Check::Finite, #[trigger] scores[u]),
        },
{
    let dead = dead_of::<A>(scores);
    ranking::law_next_is_the_first_largest::<A>(
        Relation::TotallyBelow,
        scores,
        dead,
        scores.len() as int,
    );
    ranking::lemma_next_is_left::<A>(
        Relation::TotallyBelow,
        scores,
        dead,
        scores.len() as int,
    );
    if best_of::<A>(scores) is None {
        assert forall|u: int| 0 <= u < scores.len() implies !arith::chk::<A>(
            Check::Finite,
            #[trigger] scores[u],
        ) by {
            assert(dead[u]);
        }
    }
}

} // verus!
