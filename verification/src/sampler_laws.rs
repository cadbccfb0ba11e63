//! What the sampler selects, said without the way it selects it.
use vstd::prelude::*;
use crate::algebra::{one, over, plus, times, zero};
use crate::arith;
use crate::arith::{Arithmetic, Binary, Check, Constant, Relation, Unary};
use crate::ranking;
use crate::sampler;
use crate::sampler::{SamplingMode, Widens};

verus! {

/// A repeated token loses ground whatever its sign: a positive score is divided by the penalty, so
/// that the penalty times the result is the score, and any other is multiplied, so that the result
/// over the penalty is.
pub proof fn law_the_penalty_can_be_taken_back<A: Arithmetic>(score: A::Scalar, penalty: A::Scalar)
    requires
        penalty == arith::cst::<A>(Constant::RepetitionPenalty),
        times::<A>(over::<A>(score, penalty), penalty) == score,
        over::<A>(times::<A>(score, penalty), penalty) == score,
    ensures
        arith::rel::<A>(Relation::Less, zero::<A>(), score) ==> times::<A>(
            sampler::penalty_of::<A>(score),
            penalty,
        ) == score,
        !arith::rel::<A>(Relation::Less, zero::<A>(), score) ==> over::<A>(
            sampler::penalty_of::<A>(score),
            penalty,
        ) == score,
{
}

/// What the talker's processors do to each token: those from 2048 on are out of reach but for the
/// end of speech, which is out of reach until two codes are there; of the others, one that was
/// emitted is penalized and one that was not keeps its score.
pub proof fn law_processors_treat_each_token_alone<A: Arithmetic>(
    scores: Seq<A::Scalar>,
    history: Seq<u32>,
    t: int,
)
    requires
        scores.len() == 3_072,
        0 <= t < 3_072,
    ensures
        sampler::processed_of::<A>(scores, history).len() == 3_072,
        t >= 2_048 && t != 2_150 ==> sampler::processed_of::<A>(scores, history)[t] == arith::cst::<
            A,
        >(Constant::NegativeInfinity),
        t == 2_150 && history.len() < 2 ==> sampler::processed_of::<A>(scores, history)[t]
            == arith::cst::<A>(Constant::NegativeInfinity),
        (t < 2_048 || t == 2_150 && history.len() >= 2) && !history.contains(t as u32)
            ==> sampler::processed_of::<A>(scores, history)[t] == scores[t],
        (t < 2_048 || t == 2_150 && history.len() >= 2) && history.contains(t as u32)
            ==> sampler::processed_of::<A>(scores, history)[t] == sampler::penalty_of::<A>(
            scores[t],
        ),
{
    let n = history.len() as int;
    if history.contains(t as u32) {
        let j = choose|j: int| 0 <= j < history.len() && history[j] == t as u32;
        assert(history[j] == t);
        assert(sampler::occurs(history, n, t));
    } else if sampler::occurs(history, n, t) {
        let j = choose|j: int| 0 <= j < n && #[trigger] history[j] == t;
        assert(history[j] == t as u32);
        assert(history.contains(t as u32));
    }
}

/// A tempered score times the temperature is the score; what is out of reach stays as it is.
pub proof fn law_the_temperature_divides<A: Arithmetic>(scores: Seq<A::Scalar>, t: int)
    requires
        0 <= t < scores.len(),
        times::<A>(
            over::<A>(scores[t], arith::cst::<A>(Constant::Temperature)),
            arith::cst::<A>(Constant::Temperature),
        ) == scores[t],
    ensures
        sampler::tempered_of::<A>(scores).len() == scores.len(),
        arith::chk::<A>(Check::Finite, scores[t]) ==> times::<A>(
            sampler::tempered_of::<A>(scores)[t],
            arith::cst::<A>(Constant::Temperature),
        ) == scores[t],
        !arith::chk::<A>(Check::Finite, scores[t]) ==> sampler::tempered_of::<A>(scores)[t]
            == scores[t],
{
}

/// What a round has taken stays taken.
proof fn lemma_taken_stays<A: Arithmetic>(
    x: Seq<A::Scalar>,
    taken: Seq<bool>,
    early: int,
    late: int,
    t: int,
)
    requires
        taken.len() == x.len(),
        0 <= early <= late,
        0 <= t < x.len(),
        ranking::taken_after::<A>(Relation::TotallyBelow, x, taken, early)[t],
    ensures
        ranking::taken_after::<A>(Relation::TotallyBelow, x, taken, late)[t],
    decreases late,
{
    if late > early {
        lemma_taken_stays::<A>(x, taken, early, late - 1, t);
        ranking::lemma_taken_len::<A>(Relation::TotallyBelow, x, taken, late - 1);
        let before = ranking::taken_after::<A>(Relation::TotallyBelow, x, taken, late - 1);
        ranking::lemma_next_is_left::<A>(Relation::TotallyBelow, x, before, x.len() as int);
    }
}

/// The token of a rank is in the row, was not taken before its round, and is taken by it.
proof fn lemma_rank<A: Arithmetic>(scores: Seq<A::Scalar>, k: int)
    requires
        k >= 1,
    ensures
        sampler::ranked_of::<A>(scores, k) matches Some(t) ==> {
            &&& 0 <= t < scores.len()
            &&& !ranking::taken_after::<A>(
                Relation::TotallyBelow,
                scores,
                sampler::dead_of::<A>(scores),
                k - 1,
            )[t]
            &&& ranking::taken_after::<A>(
                Relation::TotallyBelow,
                scores,
                sampler::dead_of::<A>(scores),
                k,
            )[t]
        },
{
    let dead = sampler::dead_of::<A>(scores);
    ranking::lemma_taken_len::<A>(Relation::TotallyBelow, scores, dead, k - 1);
    let before = ranking::taken_after::<A>(Relation::TotallyBelow, scores, dead, k - 1);
    ranking::lemma_next_is_left::<A>(Relation::TotallyBelow, scores, before, scores.len() as int);
}

/// Every rank has its own token, and that token is within reach.
pub proof fn law_ranks_hold_different_tokens<A: Arithmetic>(
    scores: Seq<A::Scalar>,
    high: int,
    low: int,
)
    requires
        1 <= high < low,
        sampler::ranked_of::<A>(scores, high) is Some,
        sampler::ranked_of::<A>(scores, low) is Some,
    ensures
        sampler::ranked_of::<A>(scores, high) != sampler::ranked_of::<A>(scores, low),
        arith::chk::<A>(
            Check::Finite,
            scores[sampler::ranked_of::<A>(scores, high)->0],
        ),
{
    let dead = sampler::dead_of::<A>(scores);
    let first = sampler::ranked_of::<A>(scores, high)->0;
    lemma_rank::<A>(scores, high);
    lemma_rank::<A>(scores, low);
    lemma_taken_stays::<A>(scores, dead, high, low - 1, first);
    if dead[first] {
        assert(ranking::taken_after::<A>(Relation::TotallyBelow, scores, dead, 0)[first]);
        lemma_taken_stays::<A>(scores, dead, 0, high - 1, first);
    }
}

/// The limit on candidates keeps the best. Where scores are ordered, the tokens of the first `k`
/// ranks keep their scores; every token below the last of them is out of reach; and a row with no
/// more than `k` tokens within reach is kept whole.
pub proof fn law_the_best_candidates_are_kept<A: Arithmetic>(
    scores: Seq<A::Scalar>,
    k: int,
    rank: int,
    t: int,
)
    requires
        1 <= rank <= k,
        0 <= t < scores.len(),
        ranking::weakly_ordered::<A>(Relation::TotallyBelow, scores),
        forall|a: int, b: int|
            0 <= a < scores.len() && 0 <= b < scores.len() && #[trigger] arith::rel::<A>(
                Relation::Less,
                scores[a],
                scores[b],
            ) ==> arith::rel::<A>(Relation::TotallyBelow, scores[a], scores[b]),
    ensures
        sampler::top_k_of::<A>(scores, k).len() == scores.len(),
        sampler::ranked_of::<A>(scores, rank) == Some(t) ==> sampler::top_k_of::<A>(scores, k)[t]
            == scores[t],
        sampler::ranked_of::<A>(scores, k + 1) is None ==> sampler::top_k_of::<A>(scores, k)
            == scores,
        sampler::ranked_of::<A>(scores, k) is Some && sampler::ranked_of::<A>(scores, k + 1) is Some
            && arith::rel::<A>(
            Relation::Less,
            scores[t],
            scores[sampler::ranked_of::<A>(scores, k)->0],
        ) ==> sampler::top_k_of::<A>(scores, k)[t] == arith::cst::<A>(Constant::NegativeInfinity),
{
    let op = Relation::TotallyBelow;
    let dead = sampler::dead_of::<A>(scores);
    if sampler::ranked_of::<A>(scores, rank) == Some(t) {
        match (sampler::ranked_of::<A>(scores, k), sampler::ranked_of::<A>(scores, k + 1)) {
            (Some(cut), Some(_)) => {
                lemma_rank::<A>(scores, k);
                lemma_rank::<A>(scores, rank);
                let before = ranking::taken_after::<A>(op, scores, dead, rank - 1);
                ranking::lemma_taken_len::<A>(op, scores, dead, rank - 1);
                if before[cut] {
                    lemma_taken_stays::<A>(scores, dead, rank - 1, k - 1, cut);
                }
                ranking::law_next_is_the_first_largest::<A>(
                    op,
                    scores,
                    before,
                    scores.len() as int,
                );
                assert(!arith::rel::<A>(op, scores[t], scores[cut]));
            },
            _ => {},
        }
    }
}

/// Looking at lower ranks leaves the token of a rank alone.
proof fn lemma_nucleus_at_rank<A: Arithmetic, W: Widens<A>>(
    scores: Seq<A::Scalar>,
    best: int,
    top_p: W::Scalar,
    rank: int,
    n: int,
    t: int,
)
    requires
        1 <= rank,
        0 <= n,
        sampler::ranked_of::<A>(scores, rank) == Some(t),
    ensures
        0 <= t < scores.len(),
        sampler::nucleus_of::<A, W>(scores, best, top_p, n).len() == scores.len(),
        sampler::nucleus_of::<A, W>(scores, best, top_p, n)[t] == if n >= rank && rank > 1
            && arith::rel::<W>(
            Relation::AtMost,
            top_p,
            sampler::ranked_cumulative_of::<A, W>(scores, best, rank - 1),
        ) {
            arith::cst::<A>(Constant::NegativeInfinity)
        } else {
            scores[t]
        },
    decreases n,
{
    lemma_rank::<A>(scores, rank);
    if n > 0 {
        lemma_nucleus_at_rank::<A, W>(scores, best, top_p, rank, n - 1, t);
        lemma_rank::<A>(scores, n);
        if sampler::ranked_of::<A>(scores, n) is Some {
            if n < rank {
                law_ranks_hold_different_tokens::<A>(scores, n, rank);
            } else if n > rank {
                law_ranks_hold_different_tokens::<A>(scores, rank, n);
            }
        }
    }
}

/// The limit on probability drops a tail. The token of the first rank is kept; that of any other is
/// kept where the ranks above it do not yet hold `top_p` of the probability, and is out of reach
/// where they do.
pub proof fn law_the_tail_is_dropped<A: Arithmetic, W: Widens<A>>(
    scores: Seq<A::Scalar>,
    top_p: W::Scalar,
    best: int,
    rank: int,
    t: int,
)
    requires
        !arith::rel::<W>(Relation::AtMost, one::<W>(), top_p),
        sampler::best_of::<A>(scores) == Some(best),
        1 <= rank <= sampler::live_of::<A>(scores),
        sampler::ranked_of::<A>(scores, rank) == Some(t),
    ensures
        sampler::top_p_of::<A, W>(scores, top_p).len() == scores.len(),
        sampler::top_p_of::<A, W>(scores, top_p)[t] == if rank > 1 && arith::rel::<W>(
            Relation::AtMost,
            top_p,
            sampler::ranked_cumulative_of::<A, W>(scores, best, rank - 1),
        ) {
            arith::cst::<A>(Constant::NegativeInfinity)
        } else {
            scores[t]
        },
{
    lemma_nucleus_at_rank::<A, W>(
        scores,
        best,
        top_p,
        rank,
        sampler::live_of::<A>(scores),
        t,
    );
}

/// A production draw is made from the fifty best of the tempered scores, with no limit on
/// probability, by the cumulative probabilities in the order of the tokens.
pub proof fn law_production_draws_from_the_fifty_best<A: Arithmetic, W: Widens<A>>(
    scores: Seq<A::Scalar>,
    warped: Seq<A::Scalar>,
    best: int,
    bits: u64,
)
    requires
        arith::rel::<W>(Relation::AtMost, one::<W>(), one::<W>()),
        warped == sampler::top_k_of::<A>(sampler::tempered_of::<A>(scores), 50),
        sampler::best_of::<A>(warped) == Some(best),
        sampler::normalizes::<W>(sampler::mass_of::<A, W>(warped, best, warped.len() as int)),
    ensures
        sampler::warped_of::<A, W>(scores) == warped,
        sampler::choice_of::<A, W>(scores, SamplingMode::Production, bits)
            == sampler::drawn_of::<A, W>(warped, best, sampler::unit_of::<A, W>(bits), 0),
        sampler::choice_of::<A, W>(scores, SamplingMode::CanonicalGreedy, bits)
            == sampler::best_of::<A>(scores),
{
}

/// A drawn token is within reach, every token within reach before it ends at or below the draw, and
/// its own end is above the draw unless it is the last within reach.
pub proof fn law_the_draw_falls_into_the_token<A: Arithmetic, W: Widens<A>>(
    scores: Seq<A::Scalar>,
    best: int,
    draw: W::Scalar,
    from: int,
)
    requires
        0 <= from <= scores.len(),
    ensures
        match sampler::drawn_of::<A, W>(scores, best, draw, from) {
            Some(t) => {
                &&& from <= t < scores.len()
                &&& arith::chk::<A>(Check::Finite, scores[t])
                &&& forall|u: int|
                    from <= u < t && arith::chk::<A>(Check::Finite, scores[u])
                        ==> !#[trigger] arith::rel::<W>(
                        Relation::Less,
                        draw,
                        sampler::cumulative_of::<A, W>(scores, best, u + 1),
                    )
                &&& arith::rel::<W>(
                    Relation::Less,
                    draw,
                    sampler::cumulative_of::<A, W>(scores, best, t + 1),
                ) || forall|u: int|
                    t < u < scores.len() ==> !#[trigger] arith::chk::<A>(Check::Finite, scores[u])
            },
            None => forall|u: int|
                from <= u < scores.len() ==> !#[trigger] arith::chk::<A>(Check::Finite, scores[u]),
        },
    decreases scores.len() - from,
{
    if from < scores.len() {
        law_the_draw_falls_into_the_token::<A, W>(scores, best, draw, from + 1);
    }
}

/// The probability of a token times the mass is its weight, the exponential of its score less the
/// best score; the mass grows by the weight of every token within reach, and the cumulative
/// probability by its probability.
pub proof fn law_probabilities_are_weights_over_the_mass<A: Arithmetic, W: Widens<A>>(
    scores: Seq<A::Scalar>,
    best: int,
    t: int,
    mass: W::Scalar,
    weight: W::Scalar,
)
    requires
        0 <= t < scores.len(),
        mass == sampler::mass_of::<A, W>(scores, best, scores.len() as int),
        weight == arith::un::<W>(
            Unary::Exp,
            sampler::wide::<A, W>(arith::bin::<A>(Binary::Sub, scores[t], scores[best])),
        ),
        times::<W>(over::<W>(weight, mass), mass) == weight,
    ensures
        times::<W>(sampler::probability_at::<A, W>(scores, best, t), mass) == weight,
        arith::chk::<A>(Check::Finite, scores[t]) ==> sampler::mass_of::<A, W>(scores, best, t + 1)
            == plus::<W>(sampler::mass_of::<A, W>(scores, best, t), weight),
        !arith::chk::<A>(Check::Finite, scores[t]) ==> sampler::mass_of::<A, W>(scores, best, t + 1)
            == sampler::mass_of::<A, W>(scores, best, t),
        arith::chk::<A>(Check::Finite, scores[t]) ==> sampler::cumulative_of::<A, W>(
            scores,
            best,
            t + 1,
        ) == plus::<W>(
            sampler::cumulative_of::<A, W>(scores, best, t),
            sampler::probability_at::<A, W>(scores, best, t),
        ),
        !arith::chk::<A>(Check::Finite, scores[t]) ==> sampler::cumulative_of::<A, W>(
            scores,
            best,
            t + 1,
        ) == sampler::cumulative_of::<A, W>(scores, best, t),
{
}

/// The cumulative probability of a stretch of tokens is their mass over the whole mass.
proof fn lemma_cumulative<A: Arithmetic, W: Widens<A>>(
    scores: Seq<A::Scalar>,
    best: int,
    mass: W::Scalar,
    n: int,
)
    requires
        0 <= n <= scores.len(),
        mass == sampler::mass_of::<A, W>(scores, best, scores.len() as int),
        over::<W>(zero::<W>(), mass) == zero::<W>(),
        forall|a: W::Scalar, b: W::Scalar|
            #[trigger] over::<W>(plus::<W>(a, b), mass) == plus::<W>(
                over::<W>(a, mass),
                over::<W>(b, mass),
            ),
    ensures
        sampler::cumulative_of::<A, W>(scores, best, n) == over::<W>(
            sampler::mass_of::<A, W>(scores, best, n),
            mass,
        ),
    decreases n,
{
    if n > 0 {
        lemma_cumulative::<A, W>(scores, best, mass, n - 1);
        if arith::chk::<A>(Check::Finite, scores[n - 1]) {
            let before = sampler::mass_of::<A, W>(scores, best, n - 1);
            let weight = sampler::weight_at::<A, W>(scores, best, n - 1);
            assert(over::<W>(plus::<W>(before, weight), mass) == plus::<W>(
                over::<W>(before, mass),
                over::<W>(weight, mass),
            ));
        }
    }
}

/// The probabilities of all tokens within reach add up to one, where the mass divides exactly.
pub proof fn law_probabilities_add_up_to_one<A: Arithmetic, W: Widens<A>>(
    scores: Seq<A::Scalar>,
    best: int,
    mass: W::Scalar,
)
    requires
        mass == sampler::mass_of::<A, W>(scores, best, scores.len() as int),
        over::<W>(zero::<W>(), mass) == zero::<W>(),
        forall|a: W::Scalar, b: W::Scalar|
            #[trigger] over::<W>(plus::<W>(a, b), mass) == plus::<W>(
                over::<W>(a, mass),
                over::<W>(b, mass),
            ),
        over::<W>(mass, mass) == one::<W>(),
    ensures
        sampler::cumulative_of::<A, W>(scores, best, scores.len() as int) == one::<W>(),
{
    lemma_cumulative::<A, W>(scores, best, mass, scores.len() as int);
}

/// The first logit that no row may hold is undefined or infinite and none before it is; where there is
/// none, all may be held.
pub proof fn law_the_first_bad_logit_is_found<A: Arithmetic>(logits: Seq<A::Scalar>, from: int)
    requires
        0 <= from <= logits.len(),
    ensures
        match sampler::first_bad::<A>(logits, from) {
            Some(i) => {
                &&& from <= i < logits.len()
                &&& arith::chk::<A>(Check::UndefinedOrInfinite, logits[i])
                &&& forall|j: int|
                    from <= j < i ==> !#[trigger] arith::chk::<A>(
                        Check::UndefinedOrInfinite,
                        logits[j],
                    )
            },
            None => forall|j: int|
                from <= j < logits.len() ==> !#[trigger] arith::chk::<A>(
                    Check::UndefinedOrInfinite,
                    logits[j],
                ),
        },
    decreases logits.len() - from,
{
    if from < logits.len() {
        law_the_first_bad_logit_is_found::<A>(logits, from + 1);
    }
}

/// The first token outside a vocabulary is in the history and outside, and where there is none, every
/// token of the history is inside.
pub proof fn law_tokens_outside_the_vocabulary_are_found(history: Seq<u32>, vocab: int, from: int)
    requires
        0 <= from <= history.len(),
    ensures
        match sampler::first_invalid(history, vocab, from) {
            Some(token) => token >= vocab && exists|i: int|
                from <= i < history.len() && #[trigger] history[i] == token && forall|j: int|
                    from <= j < i ==> #[trigger] history[j] < vocab,
            None => forall|j: int| from <= j < history.len() ==> #[trigger] history[j] < vocab,
        },
    decreases history.len() - from,
{
    if from < history.len() {
        law_tokens_outside_the_vocabulary_are_found(history, vocab, from + 1);
        if history[from] < vocab {
            if let Some(token) = sampler::first_invalid(history, vocab, from + 1) {
                let i = choose|i: int|
                    from + 1 <= i < history.len() && #[trigger] history[i] == token && forall|j: int|
                        from + 1 <= j < i ==> #[trigger] history[j] < vocab;
                assert(history[i] == token);
                assert forall|j: int| from <= j < i implies #[trigger] history[j] < vocab by {}
            }
        }
    }
}

/// The generator of bits steps by a fixed odd number modulo 2^64, and mixes its state by two products
/// modulo 2^64, each of the state with its own upper bits folded in.
pub proof fn law_bits_are_mixed_from_a_counter(state: u64, first: u64, second: u64)
    requires
        first as int == ((state ^ (state >> 30u64)) * 0xbf58_476d_1ce4_e5b9) % 0x1_0000_0000_0000_0000,
        second as int == ((first ^ (first >> 27u64)) * 0x94d0_49bb_1331_11eb)
            % 0x1_0000_0000_0000_0000,
    ensures
        sampler::next_state(state) as int == (state + 0x9e37_79b9_7f4a_7c15)
            % 0x1_0000_0000_0000_0000,
        sampler::mixed(state) == second ^ (second >> 31u64),
{
}

} // verus!
