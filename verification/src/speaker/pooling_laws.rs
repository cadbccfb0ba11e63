//! What pooling over time computes, said without the way it computes it.
use vstd::prelude::*;
use crate::algebra;
use crate::algebra::{minus, one, over, plus, sum_over, times, zero};
use crate::arith;
use crate::arith::{Arithmetic, Binary, Constant, Unary};
use crate::kernel_laws;
use crate::kernels;
use crate::rows;
use crate::speaker::encoder;
use crate::speaker::encoder::Encoder;

verus! {

/// A weighted mean is the sum over all frames of weight times value.
pub proof fn law_means_weigh_every_frame<A: Arithmetic>(
    x: Seq<Seq<A::Scalar>>,
    w: Seq<Seq<A::Scalar>>,
    c: int,
    n: int,
)
    requires
        algebra::additive::<A>(),
        0 <= n,
    ensures
        encoder::weighted_mean::<A>(x, w, c, n) == sum_over::<A>(
            |t: int| times::<A>(w[t][c], x[t][c]),
            n,
        ),
    decreases n,
{
    let term = |t: int| times::<A>(w[t][c], x[t][c]);
    if n > 0 {
        law_means_weigh_every_frame::<A>(x, w, c, n - 1);
        algebra::lemma_commutes::<A>(encoder::weighted_mean::<A>(x, w, c, n - 1), term(n - 1));
        assert(sum_over::<A>(term, n) == plus::<A>(term(n - 1), sum_over::<A>(term, n - 1)));
    }
}

/// The sum of weighted squares over all frames.
proof fn lemma_weighted_squares<A: Arithmetic>(
    x: Seq<Seq<A::Scalar>>,
    w: Seq<Seq<A::Scalar>>,
    mean: A::Scalar,
    c: int,
    n: int,
)
    requires
        algebra::additive::<A>(),
        0 <= n,
    ensures
        encoder::weighted_squares::<A>(x, w, mean, c, n) == sum_over::<A>(
            |t: int|
                times::<A>(
                    times::<A>(w[t][c], minus::<A>(x[t][c], mean)),
                    minus::<A>(x[t][c], mean),
                ),
            n,
        ),
    decreases n,
{
    let term = |t: int|
        times::<A>(times::<A>(w[t][c], minus::<A>(x[t][c], mean)), minus::<A>(x[t][c], mean));
    if n > 0 {
        lemma_weighted_squares::<A>(x, w, mean, c, n - 1);
        algebra::lemma_commutes::<A>(
            encoder::weighted_squares::<A>(x, w, mean, c, n - 1),
            term(n - 1),
        );
        assert(sum_over::<A>(term, n) == plus::<A>(term(n - 1), sum_over::<A>(term, n - 1)));
    }
}

/// The square of a pooled deviation is the weighted sum of squared distances from the weighted mean,
/// floored at epsilon.
pub proof fn law_deviations_square_to_the_variance<A: Arithmetic>(
    x: Seq<Seq<A::Scalar>>,
    w: Seq<Seq<A::Scalar>>,
    channels: int,
    c: int,
    mean: A::Scalar,
    variance: A::Scalar,
)
    requires
        algebra::additive::<A>(),
        0 <= c < channels,
        mean == sum_over::<A>(|t: int| times::<A>(w[t][c], x[t][c]), x.len() as int),
        variance == arith::bin::<A>(
            Binary::Max,
            sum_over::<A>(
                |t: int|
                    times::<A>(
                        times::<A>(w[t][c], minus::<A>(x[t][c], mean)),
                        minus::<A>(x[t][c], mean),
                    ),
                x.len() as int,
            ),
            arith::cst::<A>(Constant::PoolingEpsilon),
        ),
        times::<A>(
            arith::un::<A>(Unary::Sqrt, variance),
            arith::un::<A>(Unary::Sqrt, variance),
        ) == variance,
    ensures
        encoder::means_of::<A>(x, w, channels).len() == channels,
        encoder::means_of::<A>(x, w, channels)[c] == mean,
        encoder::deviations_of::<A>(x, w, channels).len() == channels,
        times::<A>(
            encoder::deviations_of::<A>(x, w, channels)[c],
            encoder::deviations_of::<A>(x, w, channels)[c],
        ) == variance,
{
    law_means_weigh_every_frame::<A>(x, w, c, x.len() as int);
    lemma_weighted_squares::<A>(x, w, mean, c, x.len() as int);
}

/// The weights that frames get over time are in the ratio of the exponential of the difference of
/// their scores, each channel by itself.
pub proof fn law_frames_are_weighed_by_the_exponential<A: Arithmetic>(
    x: Seq<Seq<A::Scalar>>,
    channels: int,
    c: int,
    s: int,
    t: int,
    ratio: A::Scalar,
)
    requires
        0 <= c < channels,
        0 <= s < x.len(),
        0 <= t < x.len(),
        ratio == arith::un::<A>(Unary::Exp, minus::<A>(x[t][c], x[s][c])),
        algebra::exponential::<A>(),
        algebra::multiplicative::<A>(),
    ensures
        encoder::softmax_rows_of::<A>(x, channels).len() == x.len(),
        encoder::softmax_rows_of::<A>(x, channels)[t].len() == channels,
        encoder::softmax_rows_of::<A>(x, channels)[t][c] == times::<A>(
            ratio,
            encoder::softmax_rows_of::<A>(x, channels)[s][c],
        ),
{
    let track = encoder::track_of(x, c);
    let p = kernels::peak::<A>(track, track.len() as int);
    let terms = kernels::softmax_terms::<A>(track);
    let inverse = over::<A>(one::<A>(), kernels::total::<A>(terms, track.len() as int));
    algebra::lemma_exponential_splits::<A>(x[t][c], x[s][c], p);
    algebra::lemma_product_associates::<A>(ratio, terms[s], inverse);
}

/// A sum of products with one factor is the product of the sum.
proof fn lemma_factor_moves_out<A: Arithmetic>(
    term: spec_fn(int) -> A::Scalar,
    factor: A::Scalar,
    n: int,
)
    requires
        times::<A>(zero::<A>(), factor) == zero::<A>(),
        forall|a: A::Scalar, b: A::Scalar|
            #[trigger] times::<A>(plus::<A>(a, b), factor) == plus::<A>(
                times::<A>(a, factor),
                times::<A>(b, factor),
            ),
    ensures
        sum_over::<A>(|i: int| times::<A>(term(i), factor), n) == times::<A>(
            sum_over::<A>(term, n),
            factor,
        ),
    decreases n,
{
    if n > 0 {
        lemma_factor_moves_out::<A>(term, factor, n - 1);
        assert(times::<A>(plus::<A>(term(n - 1), sum_over::<A>(term, n - 1)), factor) == plus::<A>(
            times::<A>(term(n - 1), factor),
            times::<A>(sum_over::<A>(term, n - 1), factor),
        ));
    }
}

/// The weights that the frames of a channel get over time add up to one, where one over the sum of
/// their exponentials is exact.
pub proof fn law_frame_weights_add_up_to_one<A: Arithmetic>(
    x: Seq<Seq<A::Scalar>>,
    channels: int,
    c: int,
    divisor: A::Scalar,
)
    requires
        algebra::additive::<A>(),
        0 <= c < channels,
        divisor == sum_over::<A>(
            |t: int|
                arith::un::<A>(
                    Unary::Exp,
                    minus::<A>(
                        x[t][c],
                        kernels::peak::<A>(encoder::track_of(x, c), x.len() as int),
                    ),
                ),
            x.len() as int,
        ),
        times::<A>(divisor, over::<A>(one::<A>(), divisor)) == one::<A>(),
        times::<A>(zero::<A>(), over::<A>(one::<A>(), divisor)) == zero::<A>(),
        forall|a: A::Scalar, b: A::Scalar|
            #[trigger] times::<A>(plus::<A>(a, b), over::<A>(one::<A>(), divisor)) == plus::<A>(
                times::<A>(a, over::<A>(one::<A>(), divisor)),
                times::<A>(b, over::<A>(one::<A>(), divisor)),
            ),
    ensures
        sum_over::<A>(
            |t: int| encoder::softmax_rows_of::<A>(x, channels)[t][c],
            x.len() as int,
        ) == one::<A>(),
{
    let n = x.len() as int;
    let track = encoder::track_of(x, c);
    let terms = kernels::softmax_terms::<A>(track);
    let raised = |t: int|
        arith::un::<A>(Unary::Exp, minus::<A>(x[t][c], kernels::peak::<A>(track, n)));
    kernel_laws::law_total_sums_every_value::<A>(terms, n);
    algebra::lemma_sum_alike::<A>(|t: int| terms[t], raised, n);
    let inverse = over::<A>(one::<A>(), divisor);
    assert(kernels::total::<A>(terms, n) == divisor);
    lemma_factor_moves_out::<A>(raised, inverse, n);
    algebra::lemma_sum_alike::<A>(
        |t: int| encoder::softmax_rows_of::<A>(x, channels)[t][c],
        |t: int| times::<A>(raised(t), inverse),
        n,
    );
}

/// Attentive pooling in its parts. Every frame is scored by its values beside the even means and
/// deviations of the clip, through an activated layer, a hyperbolic tangent and a plain layer; the
/// scores become weights over time; and the weighted means stand before the weighted deviations.
pub proof fn law_pooling_puts_means_before_deviations<A: Arithmetic>(
    encoder: Encoder<A>,
    x: Seq<Seq<A::Scalar>>,
    even: Seq<Seq<A::Scalar>>,
    context: Seq<Seq<A::Scalar>>,
    squashed: Seq<Seq<A::Scalar>>,
    weights: Seq<Seq<A::Scalar>>,
    c: int,
)
    requires
        rows::uniform(x, 1_536),
        even.len() == x.len(),
        rows::uniform(even, 1_536),
        forall|t: int, i: int|
            0 <= t < x.len() && 0 <= i < 1_536 ==> #[trigger] even[t][i] == over::<A>(
                one::<A>(),
                arith::num::<A>(x.len() as usize),
            ),
        context.len() == x.len(),
        forall|t: int|
            0 <= t < x.len() ==> #[trigger] context[t] == x[t] + encoder::means_of::<A>(
                x,
                even,
                1_536,
            ) + encoder::deviations_of::<A>(x, even, 1_536),
        squashed.len() == x.len(),
        forall|t: int|
            0 <= t < x.len() ==> #[trigger] squashed[t] == kernels::map::<A>(
                Unary::Tanh,
                encoder.conv(35).activated::<A>(context)[t],
            ),
        weights == encoder::softmax_rows_of::<A>(encoder.conv(36).applied::<A>(squashed), 1_536),
        0 <= c < 1_536,
    ensures
        encoder.pooled_of(x).len() == 3_072,
        encoder.pooled_of(x)[c] == encoder::means_of::<A>(x, weights, 1_536)[c],
        encoder.pooled_of(x)[1_536 + c] == encoder::deviations_of::<A>(x, weights, 1_536)[c],
{
    let share = encoder::share_of::<A>(x.len() as int);
    let flat = Seq::new(x.len(), |t: int| rows::filled(1_536, share));
    assert forall|t: int| 0 <= t < x.len() implies #[trigger] flat[t] == even[t] by {
        assert(even[t].len() == 1_536);
        assert forall|i: int| 0 <= i < 1_536 implies flat[t][i] == #[trigger] even[t][i] by {}
        assert(flat[t] =~= even[t]);
    }
    assert(flat =~= even);
    let mean = encoder::means_of::<A>(x, even, 1_536);
    let deviation = encoder::deviations_of::<A>(x, even, 1_536);
    assert(Seq::new(x.len(), |t: int| x[t] + mean + deviation) =~= context);
    let raised = encoder.conv(35).activated::<A>(context);
    assert(Seq::new(raised.len(), |t: int| kernels::map::<A>(Unary::Tanh, raised[t])) =~= squashed);
}

} // verus!
