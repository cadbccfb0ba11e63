//! What the policies around the model compute, said without the way they compute it.
use vstd::prelude::*;
use crate::af3;
use crate::af3::FrankenMtpEProcessConfig;
use crate::algebra;
use crate::algebra::{minus, one, over, plus, sum_over, times, zero};
use crate::arith;
use crate::arith::{Arithmetic, Binary, Constant, Relation, Unary};
use crate::drafter_ladder;
use crate::drafter_ladder::{DistilledMicroDrafter, ParallelHeadsDrafter};
use crate::rows;
use crate::surgery;
use crate::surgery::{CanaryFailure, CanaryVerdict, SurgeryCanaryDetector};

verus! {

/// That multiplication distributes over sums and differences and may be turned round.
#[verifier::opaque]
pub open spec fn distributive<A: Arithmetic>() -> bool {
    &&& forall|a: A::Scalar, b: A::Scalar| #[trigger] times::<A>(a, b) == times::<A>(b, a)
    &&& forall|a: A::Scalar, b: A::Scalar, c: A::Scalar|
        #[trigger] times::<A>(a, plus::<A>(b, c)) == plus::<A>(times::<A>(a, b), times::<A>(a, c))
    &&& forall|a: A::Scalar, b: A::Scalar, c: A::Scalar|
        #[trigger] times::<A>(a, minus::<A>(b, c)) == minus::<A>(
            times::<A>(a, b),
            times::<A>(a, c),
        )
}

/// A product with a sum.
proof fn lemma_over_sum<A: Arithmetic>(a: A::Scalar, b: A::Scalar, c: A::Scalar)
    requires
        distributive::<A>(),
    ensures
        times::<A>(a, plus::<A>(b, c)) == plus::<A>(times::<A>(a, b), times::<A>(a, c)),
{
    reveal(distributive);
    assert(times::<A>(a, plus::<A>(b, c)) == plus::<A>(times::<A>(a, b), times::<A>(a, c)));
}

/// A product with a difference.
proof fn lemma_over_difference<A: Arithmetic>(a: A::Scalar, b: A::Scalar, c: A::Scalar)
    requires
        distributive::<A>(),
    ensures
        times::<A>(a, minus::<A>(b, c)) == minus::<A>(times::<A>(a, b), times::<A>(a, c)),
{
    reveal(distributive);
    assert(times::<A>(a, minus::<A>(b, c)) == minus::<A>(times::<A>(a, b), times::<A>(a, c)));
}

/// A product turned round.
proof fn lemma_turned<A: Arithmetic>(a: A::Scalar, b: A::Scalar)
    requires
        distributive::<A>(),
    ensures
        times::<A>(a, b) == times::<A>(b, a),
{
    reveal(distributive);
    assert(times::<A>(a, b) == times::<A>(b, a));
}

/// A difference is a sum with what the subtrahend leaves of zero.
proof fn lemma_negative<A: Arithmetic>(a: A::Scalar, b: A::Scalar)
    requires
        algebra::additive::<A>(),
        algebra::subtractive::<A>(),
    ensures
        minus::<A>(a, b) == plus::<A>(a, minus::<A>(zero::<A>(), b)),
        plus::<A>(b, minus::<A>(zero::<A>(), b)) == zero::<A>(),
{
    let negative = minus::<A>(zero::<A>(), b);
    reveal(algebra::subtractive);
    assert(plus::<A>(negative, b) == zero::<A>());
    algebra::lemma_commutes::<A>(negative, b);
    algebra::lemma_associates::<A>(a, negative, b);
    assert(plus::<A>(plus::<A>(a, negative), b) == plus::<A>(a, zero::<A>()));
    assert(plus::<A>(a, zero::<A>()) == a) by {
        reveal(algebra::additive);
    }
    let sum = plus::<A>(a, negative);
    assert(minus::<A>(plus::<A>(sum, b), b) == sum);
}

/// The monitor's bet is fair. With probability `p0` an anomaly multiplies the evidence by one factor,
/// and with the rest of the probability its absence multiplies it by the other; the mean of the two is
/// one, so that evidence against a healthy drafter is not expected to grow.
pub proof fn law_the_bet_is_fair<W: Arithmetic>(config: FrankenMtpEProcessConfig<W>)
    requires
        algebra::additive::<W>(),
        algebra::subtractive::<W>(),
        algebra::units::<W>(),
        algebra::multiplicative::<W>(),
        distributive::<W>(),
    ensures
        plus::<W>(
            times::<W>(config.p0, config.factor(true)),
            times::<W>(minus::<W>(one::<W>(), config.p0), config.factor(false)),
        ) == one::<W>(),
{
    let p = config.p0;
    let l = config.lambda;
    let o = one::<W>();
    let z = zero::<W>();
    let y = times::<W>(p, l);
    let x = times::<W>(p, times::<W>(l, p));
    let win = config.factor(true);
    let lose = config.factor(false);
    lemma_turned::<W>(l, p);
    // win = 1 + (l - lp), lose = 1 + (0 - lp)
    lemma_over_difference::<W>(l, o, p);
    lemma_over_difference::<W>(l, z, p);
    assert(win == plus::<W>(o, minus::<W>(l, y)));
    assert(lose == plus::<W>(o, minus::<W>(z, y)));
    // p win = p + (y - x)
    lemma_over_sum::<W>(p, o, minus::<W>(l, y));
    lemma_over_difference::<W>(p, l, y);
    let gain = times::<W>(p, win);
    assert(gain == plus::<W>(p, minus::<W>(y, x)));
    // p lose = p + (0 - x)
    lemma_over_sum::<W>(p, o, minus::<W>(z, y));
    lemma_over_difference::<W>(p, z, y);
    let part = times::<W>(p, lose);
    assert(part == plus::<W>(p, minus::<W>(z, x)));
    // (1 - p) lose = lose - p lose
    lemma_turned::<W>(minus::<W>(o, p), lose);
    lemma_over_difference::<W>(lose, o, p);
    lemma_turned::<W>(lose, p);
    let rest = times::<W>(minus::<W>(o, p), lose);
    assert(rest == minus::<W>(lose, part));
    assert(plus::<W>(rest, part) == lose) by {
        reveal(algebra::subtractive);
    }
    // gain = y + part
    lemma_negative::<W>(y, x);
    let negative = minus::<W>(z, x);
    assert(gain == plus::<W>(p, plus::<W>(y, negative)));
    algebra::lemma_associates::<W>(p, y, negative);
    algebra::lemma_commutes::<W>(p, y);
    algebra::lemma_associates::<W>(y, p, negative);
    assert(gain == plus::<W>(y, part));
    // gain + rest = y + (part + rest) = y + lose = 1 + (y + (0 - y)) = 1
    algebra::lemma_associates::<W>(y, part, rest);
    algebra::lemma_commutes::<W>(part, rest);
    lemma_negative::<W>(o, y);
    let less = minus::<W>(z, y);
    algebra::lemma_associates::<W>(y, o, less);
    algebra::lemma_commutes::<W>(y, o);
    algebra::lemma_associates::<W>(o, y, less);
    assert(plus::<W>(y, less) == z);
}

/// Evidence is a product: a step multiplies it by the step's factor, floored at zero, and the alarm is
/// raised where it reaches one over the risk level.
pub proof fn law_evidence_multiplies<W: Arithmetic>(
    config: FrankenMtpEProcessConfig<W>,
    state: af3::MonitorState<W::Scalar>,
    is_anomaly: bool,
    product: W::Scalar,
)
    requires
        !config.disabled(),
        !state.alarmed,
        product == times::<W>(state.e_value, config.factor(is_anomaly)),
        arith::bin::<W>(Binary::Max, product, zero::<W>()) == product,
        times::<W>(over::<W>(one::<W>(), config.alpha), config.alpha) == one::<W>(),
    ensures
        ({
            let next = af3::stepped::<W>(config, state, None, is_anomaly);
            &&& next.e_value == product
            &&& next.alarmed == arith::rel::<W>(Relation::AtMost, config.limit(), product)
            &&& times::<W>(config.limit(), config.alpha) == one::<W>()
        }),
{
}

/// The number of bits before rounding is half the distance of the log-variance from the water level:
/// twice it is the distance.
pub proof fn law_bits_are_half_the_distance<A: Arithmetic>(
    log_variance: A::Scalar,
    level: A::Scalar,
    height: A::Scalar,
)
    requires
        plus::<A>(height, height) == minus::<A>(log_variance, level),
        times::<A>(arith::cst::<A>(Constant::Half), plus::<A>(height, height)) == height,
    ensures
        surgery::rounded_height::<A>(log_variance, level) == arith::un::<A>(Unary::Round, height),
{
}

/// A multiplier breaks even where the accepted share, times the depths and the multiplier, is one;
/// outside the range of a share the nearest end is taken.
pub proof fn law_break_even_balances<W: Arithmetic>(multiplier: W::Scalar, share: W::Scalar)
    requires
        !arith::rel::<W>(Relation::AtMost, multiplier, zero::<W>()),
        arith::rel::<W>(Relation::AtMost, multiplier, multiplier),
        share == over::<W>(one::<W>(), times::<W>(arith::num::<W>(15), multiplier)),
        times::<W>(share, times::<W>(arith::num::<W>(15), multiplier)) == one::<W>(),
    ensures
        !arith::rel::<W>(Relation::Less, share, zero::<W>()) && !arith::rel::<W>(
            Relation::Less,
            one::<W>(),
            share,
        ) ==> times::<W>(
            drafter_ladder::break_even_of::<W>(multiplier),
            times::<W>(arith::num::<W>(15), multiplier),
        ) == one::<W>(),
        !arith::rel::<W>(Relation::Less, share, zero::<W>()) && arith::rel::<W>(
            Relation::Less,
            one::<W>(),
            share,
        ) ==> drafter_ladder::break_even_of::<W>(multiplier) == one::<W>(),
        arith::rel::<W>(Relation::Less, share, zero::<W>()) ==> drafter_ladder::break_even_of::<W>(
            multiplier,
        ) == zero::<W>(),
{
}

/// A seeded sum of products is the seed plus the sum over all places.
proof fn lemma_seeded_dot<A: Arithmetic>(
    seed: A::Scalar,
    x: Seq<A::Scalar>,
    y: Seq<A::Scalar>,
    n: int,
)
    requires
        algebra::additive::<A>(),
    ensures
        drafter_ladder::seeded_dot::<A>(seed, x, y, n) == plus::<A>(
            seed,
            sum_over::<A>(|i: int| times::<A>(x[i], y[i]), n),
        ),
    decreases n,
{
    let term = |i: int| times::<A>(x[i], y[i]);
    if n > 0 {
        lemma_seeded_dot::<A>(seed, x, y, n - 1);
        let before = sum_over::<A>(term, n - 1);
        algebra::lemma_associates::<A>(seed, before, term(n - 1));
        algebra::lemma_commutes::<A>(before, term(n - 1));
        assert(sum_over::<A>(term, n) == plus::<A>(term(n - 1), before));
    } else {
        reveal(algebra::additive);
        assert(plus::<A>(seed, zero::<A>()) == seed);
    }
}

/// A distilled draft of a depth is the magnitude of the hidden state's product with the weights of that
/// depth, a thousandfold and cut to a whole number, moved by the code the depth held before, within the
/// vocabulary.
pub proof fn law_distilled_drafts_read_their_depth<A: Arithmetic>(
    drafter: DistilledMicroDrafter<A>,
    hidden: Seq<A::Scalar>,
    previous: Seq<usize>,
    depth: int,
    sum: A::Scalar,
)
    requires
        algebra::additive::<A>(),
        0 <= depth < 15,
        hidden.len() == drafter.hidden_size,
        drafter.projection_weights@.len() == 15 * drafter.hidden_size,
        sum == sum_over::<A>(
            |i: int|
                times::<A>(
                    hidden[i],
                    drafter.projection_weights@[depth * drafter.hidden_size + i],
                ),
            drafter.hidden_size as int,
        ),
    ensures
        drafter.proposal(hidden, Some(previous), depth) == (arith::trunc::<A>(
            times::<A>(
                arith::un::<A>(Unary::Abs, sum),
                arith::cst::<A>(Constant::DistilledScale),
            ),
        ) + previous[depth]) % 2_048,
{
    let n = drafter.hidden_size as int;
    rows::lemma_row_bounds(depth, 15, n);
    let weights = drafter.projection_weights@.skip(depth * n);
    lemma_seeded_dot::<A>(zero::<A>(), hidden, weights, n);
    algebra::lemma_sum_alike::<A>(
        |i: int| times::<A>(hidden[i], weights[i]),
        |i: int| times::<A>(hidden[i], drafter.projection_weights@[depth * n + i]),
        n,
    );
    assert(plus::<A>(zero::<A>(), sum) == sum) by {
        reveal(algebra::additive);
    }
}

/// A parallel draft of a depth is the magnitude of the head's bias and the hidden state's product with
/// the head's weights, scaled and cut to a whole number, within the vocabulary; what was drafted before
/// plays no part.
pub proof fn law_parallel_drafts_read_their_head<A: Arithmetic>(
    drafter: ParallelHeadsDrafter<A>,
    hidden: Seq<A::Scalar>,
    previous: Option<Seq<usize>>,
    depth: int,
    sum: A::Scalar,
)
    requires
        algebra::additive::<A>(),
        0 <= depth < 15,
        hidden.len() == drafter.hidden_size,
        drafter.head_weights@.len() == 15 * drafter.hidden_size,
        drafter.head_biases@.len() == 15,
        sum == plus::<A>(
            drafter.head_biases@[depth],
            sum_over::<A>(
                |i: int|
                    times::<A>(hidden[i], drafter.head_weights@[depth * drafter.hidden_size + i]),
                drafter.hidden_size as int,
            ),
        ),
    ensures
        drafter.proposal(hidden, previous, depth) == arith::trunc::<A>(
            times::<A>(
                arith::un::<A>(Unary::Abs, sum),
                arith::cst::<A>(Constant::ParallelScale),
            ),
        ) % 2_048,
{
    let n = drafter.hidden_size as int;
    rows::lemma_row_bounds(depth, 15, n);
    let weights = drafter.head_weights@.skip(depth * n);
    lemma_seeded_dot::<A>(drafter.head_biases@[depth], hidden, weights, n);
    algebra::lemma_sum_alike::<A>(
        |i: int| times::<A>(hidden[i], weights[i]),
        |i: int| times::<A>(hidden[i], drafter.head_weights@[depth * n + i]),
        n,
    );
}

/// The weights that drafters start with: whatever width [`DistilledMicroDrafter::new`] and
/// [`ParallelHeadsDrafter::new`] are asked for, a weight and one half make so many hundredths, a whole
/// number of them that runs through the hundred with the weight's place; and a head starts with the sine
/// of a tenth of its depth as its bias.
pub proof fn law_drafters_start_from_their_places<A: Arithmetic>(
    width: usize,
    distilled: DistilledMicroDrafter<A>,
    parallel: ParallelHeadsDrafter<A>,
    i: int,
    depth: int,
)
    requires
        arith::pure::<A>(),
        algebra::subtractive::<A>(),
        width > 0,
        15 * width <= usize::MAX,
        call_ensures(DistilledMicroDrafter::<A>::new, (width,), distilled),
        call_ensures(ParallelHeadsDrafter::<A>::new, (width,), parallel),
        0 <= i < 15 * width,
        0 <= depth < 15,
    ensures
        plus::<A>(distilled.projection_weights@[i], arith::cst::<A>(Constant::Half)) == over::<A>(
            arith::num::<A>(((31 * i + 7) % 100) as usize),
            arith::cst::<A>(Constant::Hundred),
        ),
        plus::<A>(parallel.head_weights@[i], arith::cst::<A>(Constant::Half)) == over::<A>(
            arith::num::<A>(((17 * i + 13) % 100) as usize),
            arith::cst::<A>(Constant::Hundred),
        ),
        parallel.head_biases@[depth] == arith::un::<A>(
            Unary::Sin,
            times::<A>(arith::num::<A>(depth as usize), arith::cst::<A>(Constant::Tenth)),
        ),
{
    reveal(algebra::subtractive);
    let half = arith::cst::<A>(Constant::Half);
    let a = over::<A>(
        arith::num::<A>(((31 * i + 7) % 100) as usize),
        arith::cst::<A>(Constant::Hundred),
    );
    let b = over::<A>(
        arith::num::<A>(((17 * i + 13) % 100) as usize),
        arith::cst::<A>(Constant::Hundred),
    );
    assert(plus::<A>(minus::<A>(a, half), half) == a);
    assert(plus::<A>(minus::<A>(b, half), half) == b);
    assert(i * 31 + 7 == 31 * i + 7);
    assert(i * 17 + 13 == 17 * i + 13);
}

/// Whatever frame [`SurgeryCanaryDetector::evaluate_frame`] looks at, a fricative cut below fourteen
/// depths trips it, and otherwise a frame trips it exactly where less than half of the high band's
/// energy is left.
pub proof fn law_the_canary_trips_on_lost_energy<A: Arithmetic>(
    fence: &SurgeryCanaryDetector,
    depth: usize,
    fricative: bool,
    ratio: A::Scalar,
    verdict: CanaryVerdict,
)
    requires
        arith::pure::<A>(),
        call_ensures(
            SurgeryCanaryDetector::evaluate_frame::<A>,
            (fence, depth, fricative, ratio),
            verdict,
        ),
    ensures
        fricative && depth < 14 ==> verdict == CanaryVerdict::Trip(
            CanaryFailure::SibilanceDistortion,
        ),
        !(fricative && depth < 14) && arith::rel::<A>(
            Relation::Less,
            ratio,
            arith::cst::<A>(Constant::Half),
        ) ==> verdict == CanaryVerdict::Trip(CanaryFailure::HighFrequencyLoss),
        !(fricative && depth < 14) && !arith::rel::<A>(
            Relation::Less,
            ratio,
            arith::cst::<A>(Constant::Half),
        ) ==> verdict == CanaryVerdict::Pass,
{
}

} // verus!
