//! What the vector kernels compute, said without the way they compute it.
use vstd::prelude::*;
use crate::algebra;
use crate::algebra::{minus, one, over, plus, seed_of, silent, singles_out, sum_over, times, zero};
use crate::arith;
use crate::arith::{Arithmetic, Binary, Check, Constant, Reduction, Unary};
use crate::kernels;
use crate::rows;

verus! {

/// A sum of products with a vector that singles out one place is the other vector's value there.
pub proof fn law_single_dot<A: Arithmetic>(x: Seq<A::Scalar>, y: Seq<A::Scalar>, n: int, k: int)
    requires
        algebra::units::<A>(),
        0 <= k < n <= x.len(),
        n <= y.len(),
        singles_out::<A>(x, k),
    ensures
        kernels::dot::<A>(x, y, n) == y[k],
        kernels::dot::<A>(y, x, n) == y[k],
    decreases n,
{
    if n - 1 == k {
        lemma_dot_before::<A>(x, y, n - 1, k);
    } else {
        law_single_dot::<A>(x, y, n - 1, k);
        assert(x[n - 1] == zero::<A>());
    }
}

/// Before the place that is singled out the sum is zero.
proof fn lemma_dot_before<A: Arithmetic>(x: Seq<A::Scalar>, y: Seq<A::Scalar>, n: int, k: int)
    requires
        algebra::units::<A>(),
        0 <= n <= k,
        n <= x.len(),
        n <= y.len(),
        singles_out::<A>(x, k),
    ensures
        kernels::dot::<A>(x, y, n) == zero::<A>(),
        kernels::dot::<A>(y, x, n) == zero::<A>(),
    decreases n,
{
    if n > 0 {
        lemma_dot_before::<A>(x, y, n - 1, k);
        assert(x[n - 1] == zero::<A>());
    }
}

/// A sum of products with zeros is zero.
pub proof fn law_silent_dot<A: Arithmetic>(x: Seq<A::Scalar>, y: Seq<A::Scalar>, n: int)
    requires
        algebra::units::<A>(),
        0 <= n <= x.len(),
        n <= y.len(),
        silent::<A>(x) || silent::<A>(y),
    ensures
        kernels::dot::<A>(x, y, n) == zero::<A>(),
    decreases n,
{
    if n > 0 {
        law_silent_dot::<A>(x, y, n - 1);
        if silent::<A>(x) {
            assert(x[n - 1] == zero::<A>());
        } else {
            assert(y[n - 1] == zero::<A>());
        }
    }
}

/// A sum of products is the sum over all places, whatever the order.
pub proof fn law_dot_sums_every_product<A: Arithmetic>(
    x: Seq<A::Scalar>,
    y: Seq<A::Scalar>,
    n: int,
)
    requires
        algebra::additive::<A>(),
        0 <= n <= x.len(),
        n <= y.len(),
    ensures
        kernels::dot::<A>(x, y, n) == sum_over::<A>(|i: int| times::<A>(x[i], y[i]), n),
    decreases n,
{
    let term = |i: int| times::<A>(x[i], y[i]);
    if n > 0 {
        law_dot_sums_every_product::<A>(x, y, n - 1);
        algebra::lemma_commutes::<A>(kernels::dot::<A>(x, y, n - 1), term(n - 1));
        assert(sum_over::<A>(term, n) == plus::<A>(term(n - 1), sum_over::<A>(term, n - 1)));
    }
}

/// A total is the sum over all places, whatever the order.
pub proof fn law_total_sums_every_value<A: Arithmetic>(x: Seq<A::Scalar>, n: int)
    requires
        algebra::additive::<A>(),
        0 <= n <= x.len(),
    ensures
        kernels::total::<A>(x, n) == sum_over::<A>(|i: int| x[i], n),
    decreases n,
{
    let term = |i: int| x[i];
    if n > 0 {
        law_total_sums_every_value::<A>(x, n - 1);
        algebra::lemma_commutes::<A>(kernels::total::<A>(x, n - 1), term(n - 1));
        assert(sum_over::<A>(term, n) == plus::<A>(term(n - 1), sum_over::<A>(term, n - 1)));
    }
}

/// An output whose weights single out one input is that input.
pub proof fn law_matvec_reads_its_row<A: Arithmetic>(
    weight: Seq<A::Scalar>,
    x: Seq<A::Scalar>,
    n: int,
    o: int,
    k: int,
)
    requires
        algebra::units::<A>(),
        weight.len() == n * x.len(),
        0 <= o < n,
        singles_out::<A>(rows::row(weight, o, x.len() as int), k),
    ensures
        kernels::matvec_of::<A>(weight, x, n).len() == n,
        kernels::matvec_of::<A>(weight, x, n)[o] == x[k],
{
    rows::lemma_row_bounds(o, n, x.len() as int);
    law_single_dot::<A>(rows::row(weight, o, x.len() as int), x, x.len() as int, k);
}

/// An output whose weights single out one input is that input on top of the output's bias.
pub proof fn law_linear_reads_its_row<A: Arithmetic>(
    op: Reduction,
    x: Seq<A::Scalar>,
    weight: Seq<A::Scalar>,
    bias: Option<Seq<A::Scalar>>,
    n: int,
    o: int,
    k: int,
)
    requires
        algebra::units::<A>(),
        algebra::reduces::<A>(),
        weight.len() == n * x.len(),
        0 <= o < n,
        singles_out::<A>(rows::row(weight, o, x.len() as int), k),
    ensures
        kernels::linear_of::<A>(op, x, weight, bias, n).len() == n,
        kernels::linear_of::<A>(op, x, weight, bias, n)[o] == match bias {
            Some(values) => plus::<A>(values[o], x[k]),
            None => x[k],
        },
{
    rows::lemma_row_bounds(o, n, x.len() as int);
    algebra::lemma_single_reduction::<A>(
        op,
        x,
        rows::row(weight, o, x.len() as int),
        kernels::bias_at(bias, o),
        k,
    );
}

/// A layer of zeros, or one that is given zeros, answers its bias.
pub proof fn law_silent_linear_is_its_bias<A: Arithmetic>(
    op: Reduction,
    x: Seq<A::Scalar>,
    weight: Seq<A::Scalar>,
    bias: Option<Seq<A::Scalar>>,
    n: int,
)
    requires
        algebra::units::<A>(),
        algebra::reduces::<A>(),
        0 <= n,
        weight.len() == n * x.len(),
        silent::<A>(x) || silent::<A>(weight),
        bias matches Some(values) ==> values.len() == n,
    ensures
        kernels::linear_of::<A>(op, x, weight, bias, n) == match bias {
            Some(values) => values,
            None => rows::filled(n, zero::<A>()),
        },
{
    let k = x.len() as int;
    let out = kernels::linear_of::<A>(op, x, weight, bias, n);
    assert forall|o: int| 0 <= o < n implies #[trigger] out[o] == seed_of::<A>(
        kernels::bias_at(bias, o),
    ) by {
        rows::lemma_row_bounds(o, n, k);
        let row = rows::row(weight, o, k);
        if !silent::<A>(x) {
            assert forall|i: int| 0 <= i < row.len() implies #[trigger] row[i] == zero::<A>() by {
                assert(row[i] == weight[o * k + i]);
            }
        }
        algebra::lemma_silent_reduction::<A>(op, x, row, kernels::bias_at(bias, o));
    }
    match bias {
        Some(values) => {
            assert(out =~= values);
        },
        None => {
            assert(out =~= rows::filled(n, zero::<A>()));
        },
    }
}

/// SiLU times `1 + exp(-x)` gives `x` back, wherever that divisor can be divided by.
pub proof fn law_silu_is_the_logistic_gate<A: Arithmetic>(x: A::Scalar, divisor: A::Scalar)
    requires
        divisor == plus::<A>(
            one::<A>(),
            arith::un::<A>(Unary::Exp, arith::un::<A>(Unary::Neg, x)),
        ),
        times::<A>(over::<A>(x, divisor), divisor) == x,
    ensures
        times::<A>(kernels::silu_of::<A>(x), divisor) == x,
{
}

/// A SwiGLU product is open where its gate is one and closed where its gate is zero.
pub proof fn law_swiglu_gates<A: Arithmetic>(
    gate: Seq<A::Scalar>,
    up: Seq<A::Scalar>,
    i: int,
)
    requires
        algebra::units::<A>(),
        gate.len() == up.len(),
        0 <= i < gate.len(),
    ensures
        kernels::swiglu_of::<A>(gate, up).len() == up.len(),
        kernels::silu_of::<A>(gate[i]) == one::<A>() ==> kernels::swiglu_of::<A>(gate, up)[i]
            == up[i],
        kernels::silu_of::<A>(gate[i]) == zero::<A>() ==> kernels::swiglu_of::<A>(gate, up)[i]
            == zero::<A>(),
        up[i] == one::<A>() ==> kernels::swiglu_of::<A>(gate, up)[i] == kernels::silu_of::<A>(
            gate[i],
        ),
{
}

/// The exact GELU passes what lies far above zero and stops what lies far below it: where the
/// error function has reached one the value passes, and where it has reached minus one nothing
/// does.
pub proof fn law_gelu_passes_and_stops<A: Arithmetic>(x: A::Scalar, inside: A::Scalar)
    requires
        algebra::units::<A>(),
        inside == times::<A>(x, arith::cst::<A>(Constant::FracOneSqrtTwo)),
        times::<A>(
            times::<A>(arith::cst::<A>(Constant::Half), x),
            plus::<A>(one::<A>(), one::<A>()),
        ) == x,
    ensures
        arith::un::<A>(Unary::Erf, inside) == one::<A>() ==> kernels::gelu_of::<A>(x) == x,
        plus::<A>(one::<A>(), arith::un::<A>(Unary::Erf, inside)) == zero::<A>()
            ==> kernels::gelu_of::<A>(x) == zero::<A>(),
        arith::un::<A>(Unary::Erf, inside) == zero::<A>() ==> kernels::gelu_of::<A>(x)
            == times::<A>(arith::cst::<A>(Constant::Half), x),
{
}

/// A rotation by nothing changes nothing, and a quarter turn moves the first half of a head to its
/// second half and the second, negated, to its first.
pub proof fn law_rotation_turns_pairs<A: Arithmetic>(
    x: Seq<A::Scalar>,
    cos: Seq<A::Scalar>,
    sin: Seq<A::Scalar>,
    i: int,
)
    requires
        algebra::units::<A>(),
        forall|v: A::Scalar| #[trigger] minus::<A>(v, zero::<A>()) == v,
        x.len() % 2 == 0,
        cos.len() == x.len(),
        sin.len() == x.len(),
        0 <= i < x.len() as int / 2,
    ensures
        kernels::rope_of::<A>(x, cos, sin).len() == x.len(),
        ({
            let half = x.len() as int / 2;
            let out = kernels::rope_of::<A>(x, cos, sin);
            &&& cos[i] == one::<A>() && sin[i] == zero::<A>() ==> out[i] == x[i]
            &&& cos[i + half] == one::<A>() && sin[i + half] == zero::<A>() ==> out[i + half]
                == x[i + half]
            &&& cos[i] == zero::<A>() && sin[i] == one::<A>() ==> out[i] == minus::<A>(
                zero::<A>(),
                x[i + half],
            )
            &&& cos[i + half] == zero::<A>() && sin[i + half] == one::<A>() ==> out[i + half]
                == x[i]
        }),
{
    assert(minus::<A>(x[i], zero::<A>()) == x[i]);
}

/// A mean times the number of its values is their sum.
pub proof fn law_mean_times_count_is_the_sum<A: Arithmetic>(x: Seq<A::Scalar>, sum: A::Scalar)
    requires
        algebra::additive::<A>(),
        sum == sum_over::<A>(|i: int| x[i], x.len() as int),
        times::<A>(over::<A>(sum, arith::num::<A>(x.len() as usize)), arith::num::<A>(
            x.len() as usize,
        )) == sum,
    ensures
        times::<A>(kernels::mean_of::<A>(x), arith::num::<A>(x.len() as usize)) == sum,
{
    law_total_sums_every_value::<A>(x, x.len() as int);
}

/// LayerNorm takes the mean away and divides by the root of the variance. With `mean` the sum over
/// the count, `variance` the sum of squared distances from it over the count and `root` the square
/// root of the variance and epsilon, a normed value under weight one and bias zero, times the root,
/// is the distance from the mean. Weight zero leaves the bias.
pub proof fn law_layer_norm_standardises<A: Arithmetic>(
    x: Seq<A::Scalar>,
    weight: Seq<A::Scalar>,
    bias: Seq<A::Scalar>,
    eps: A::Scalar,
    mean: A::Scalar,
    root: A::Scalar,
    i: int,
)
    requires
        algebra::units::<A>(),
        algebra::additive::<A>(),
        weight.len() == x.len(),
        bias.len() == x.len(),
        0 <= i < x.len(),
        ({
            let n = arith::num::<A>(x.len() as usize);
            let square = |j: int| times::<A>(minus::<A>(x[j], mean), minus::<A>(x[j], mean));
            &&& mean == over::<A>(sum_over::<A>(|j: int| x[j], x.len() as int), n)
            &&& root == arith::un::<A>(
                Unary::Sqrt,
                plus::<A>(over::<A>(sum_over::<A>(square, x.len() as int), n), eps),
            )
        }),
        forall|v: A::Scalar|
            times::<A>(#[trigger] times::<A>(v, arith::un::<A>(Unary::Recip, root)), root) == v,
    ensures
        kernels::layer_norm_of::<A>(x, weight, bias, eps).len() == x.len(),
        weight[i] == one::<A>() && bias[i] == zero::<A>() ==> times::<A>(
            kernels::layer_norm_of::<A>(x, weight, bias, eps)[i],
            root,
        ) == minus::<A>(x[i], mean),
        weight[i] == zero::<A>() ==> kernels::layer_norm_of::<A>(x, weight, bias, eps)[i]
            == bias[i],
{
    law_total_sums_every_value::<A>(x, x.len() as int);
    assert(kernels::mean_of::<A>(x) == mean);
    let squares = kernels::deviations_of::<A>(x);
    law_total_sums_every_value::<A>(squares, squares.len() as int);
    let square = |j: int| times::<A>(minus::<A>(x[j], mean), minus::<A>(x[j], mean));
    algebra::lemma_sum_alike::<A>(|j: int| squares[j], square, x.len() as int);
    let away = minus::<A>(x[i], mean);
    assert(times::<A>(times::<A>(away, arith::un::<A>(Unary::Recip, root)), root) == away);
}

/// Softmax weighs two scores in the ratio of the exponential of their difference.
pub proof fn law_softmax_weighs_by_the_exponential<A: Arithmetic>(
    x: Seq<A::Scalar>,
    i: int,
    j: int,
)
    requires
        0 <= i < x.len(),
        0 <= j < x.len(),
        algebra::exponential::<A>(),
        forall|a: A::Scalar, b: A::Scalar, s: A::Scalar|
            #[trigger] over::<A>(times::<A>(a, b), s) == times::<A>(a, over::<A>(b, s)),
    ensures
        kernels::softmax_of::<A>(x).len() == x.len(),
        kernels::softmax_of::<A>(x)[j] == times::<A>(
            arith::un::<A>(Unary::Exp, minus::<A>(x[j], x[i])),
            kernels::softmax_of::<A>(x)[i],
        ),
{
    let p = kernels::peak::<A>(x, x.len() as int);
    let terms = kernels::softmax_terms::<A>(x);
    let s = kernels::total::<A>(terms, x.len() as int);
    let b = arith::un::<A>(Unary::Exp, minus::<A>(x[j], x[i]));
    algebra::lemma_exponential_splits::<A>(x[j], x[i], p);
    assert(over::<A>(times::<A>(b, terms[i]), s) == times::<A>(b, over::<A>(terms[i], s)));
}

/// That dividing by `s` divides a sum term by term.
pub open spec fn divides_sums<A: Arithmetic>(s: A::Scalar) -> bool {
    &&& over::<A>(zero::<A>(), s) == zero::<A>()
    &&& forall|a: A::Scalar, b: A::Scalar|
        #[trigger] over::<A>(plus::<A>(a, b), s) == plus::<A>(over::<A>(a, s), over::<A>(b, s))
}

/// A sum of quotients by one divisor is the quotient of the sum.
proof fn lemma_quotients_sum<A: Arithmetic>(
    term: spec_fn(int) -> A::Scalar,
    s: A::Scalar,
    n: int,
)
    requires
        divides_sums::<A>(s),
    ensures
        sum_over::<A>(|i: int| over::<A>(term(i), s), n) == over::<A>(
            sum_over::<A>(term, n),
            s,
        ),
    decreases n,
{
    if n > 0 {
        lemma_quotients_sum::<A>(term, s, n - 1);
        assert(over::<A>(plus::<A>(term(n - 1), sum_over::<A>(term, n - 1)), s) == plus::<A>(
            over::<A>(term(n - 1), s),
            over::<A>(sum_over::<A>(term, n - 1), s),
        ));
    }
}

/// The weights of a softmax add up to one, where their divisor, the sum of the exponentials, divides
/// exactly.
pub proof fn law_softmax_weights_add_up_to_one<A: Arithmetic>(x: Seq<A::Scalar>, divisor: A::Scalar)
    requires
        algebra::additive::<A>(),
        divisor == sum_over::<A>(
            |i: int|
                arith::un::<A>(
                    Unary::Exp,
                    minus::<A>(x[i], kernels::peak::<A>(x, x.len() as int)),
                ),
            x.len() as int,
        ),
        divides_sums::<A>(divisor),
        over::<A>(divisor, divisor) == one::<A>(),
    ensures
        sum_over::<A>(|i: int| kernels::softmax_of::<A>(x)[i], x.len() as int) == one::<A>(),
{
    let n = x.len() as int;
    let terms = kernels::softmax_terms::<A>(x);
    let raised = |i: int|
        arith::un::<A>(Unary::Exp, minus::<A>(x[i], kernels::peak::<A>(x, x.len() as int)));
    law_total_sums_every_value::<A>(terms, n);
    algebra::lemma_sum_alike::<A>(|i: int| terms[i], raised, n);
    assert(kernels::total::<A>(terms, n) == divisor);
    lemma_quotients_sum::<A>(raised, divisor, n);
    algebra::lemma_sum_alike::<A>(
        |i: int| kernels::softmax_of::<A>(x)[i],
        |i: int| over::<A>(raised(i), divisor),
        n,
    );
}

/// One lane of a weighted sum of rows is the sum of each row's value there, times its weight.
pub proof fn law_mixture_weighs_every_row<A: Arithmetic>(
    weights: Seq<A::Scalar>,
    values: Seq<Seq<A::Scalar>>,
    lane: int,
    n: int,
)
    requires
        algebra::additive::<A>(),
        0 <= n <= values.len(),
        n <= weights.len(),
    ensures
        kernels::mixed_lane::<A>(weights, values, lane, n) == sum_over::<A>(
            |i: int| times::<A>(weights[i], values[i][lane]),
            n,
        ),
    decreases n,
{
    let term = |i: int| times::<A>(weights[i], values[i][lane]);
    if n > 0 {
        law_mixture_weighs_every_row::<A>(weights, values, lane, n - 1);
        algebra::lemma_commutes::<A>(
            kernels::mixed_lane::<A>(weights, values, lane, n - 1),
            term(n - 1),
        );
        assert(sum_over::<A>(term, n) == plus::<A>(term(n - 1), sum_over::<A>(term, n - 1)));
    }
}

/// Attention is a mixture of the value rows. Each lane is the sum over all positions of the value
/// there times the position's weight, and the weights are the softmax of the query's products with
/// the keys, each times the scale.
pub proof fn law_attention_mixes_the_values<A: Arithmetic>(
    query: Seq<A::Scalar>,
    keys: Seq<Seq<A::Scalar>>,
    values: Seq<Seq<A::Scalar>>,
    scale: A::Scalar,
    scores: Seq<A::Scalar>,
    lane: int,
)
    requires
        algebra::additive::<A>(),
        keys.len() == values.len(),
        rows::uniform(keys, query.len() as int),
        rows::uniform(values, query.len() as int),
        scores.len() == keys.len(),
        forall|i: int|
            0 <= i < keys.len() ==> #[trigger] scores[i] == times::<A>(
                sum_over::<A>(|c: int| times::<A>(query[c], keys[i][c]), query.len() as int),
                scale,
            ),
        0 <= lane < query.len(),
    ensures
        kernels::attend_of::<A>(query, keys, values, scale).len() == query.len(),
        kernels::attend_of::<A>(query, keys, values, scale)[lane] == sum_over::<A>(
            |i: int| times::<A>(kernels::softmax_of::<A>(scores)[i], values[i][lane]),
            keys.len() as int,
        ),
{
    let computed = kernels::scores_of::<A>(query, keys, scale);
    assert forall|i: int| 0 <= i < keys.len() implies #[trigger] computed[i] == scores[i] by {
        assert(keys[i].len() == query.len());
        law_dot_sums_every_product::<A>(query, keys[i], query.len() as int);
    }
    assert(computed =~= scores);
    law_mixture_weighs_every_row::<A>(
        kernels::softmax_of::<A>(scores),
        values,
        lane,
        keys.len() as int,
    );
}

/// A query that sees one position takes its value whole.
pub proof fn law_one_position_is_attended_whole<A: Arithmetic>(
    query: Seq<A::Scalar>,
    key: Seq<A::Scalar>,
    value: Seq<A::Scalar>,
    scale: A::Scalar,
)
    requires
        algebra::units::<A>(),
        value.len() == query.len(),
        forall|s: A::Scalar|
            #[trigger] arith::bin::<A>(Binary::Max, arith::cst::<A>(Constant::NegativeInfinity), s)
                == s,
        forall|s: A::Scalar|
            arith::un::<A>(Unary::Exp, #[trigger] minus::<A>(s, s)) == one::<A>(),
        over::<A>(one::<A>(), one::<A>()) == one::<A>(),
    ensures
        kernels::attend_of::<A>(query, seq![key], seq![value], scale) == value,
{
    let scores = kernels::scores_of::<A>(query, seq![key], scale);
    let weights = kernels::softmax_of::<A>(scores);
    let terms = kernels::softmax_terms::<A>(scores);
    reveal_with_fuel(kernels::peak, 2);
    reveal_with_fuel(kernels::total, 2);
    reveal_with_fuel(kernels::mixed_lane, 2);
    assert(scores.len() == 1);
    assert(kernels::peak::<A>(scores, 1) == scores[0]);
    assert(minus::<A>(scores[0], scores[0]) == arith::bin::<A>(Binary::Sub, scores[0], scores[0]));
    assert(terms[0] == one::<A>());
    assert(weights[0] == one::<A>());
    assert(kernels::attend_of::<A>(query, seq![key], seq![value], scale) =~= value);
}

/// A residual is its state where the scale or the branch is silent, and its state plus its branch
/// where the scale is one.
pub proof fn law_scaled_residual_adds_its_branch<A: Arithmetic>(
    state: Seq<A::Scalar>,
    scale: Seq<A::Scalar>,
    branch: Seq<A::Scalar>,
)
    requires
        algebra::units::<A>(),
        scale.len() == state.len(),
        branch.len() == state.len(),
    ensures
        silent::<A>(scale) || silent::<A>(branch) ==> kernels::scaled_residual_of::<A>(
            state,
            scale,
            branch,
        ) == state,
        scale == rows::filled(state.len() as int, one::<A>()) && silent::<A>(state)
            ==> kernels::scaled_residual_of::<A>(state, scale, branch) == branch,
        branch == rows::filled(state.len() as int, one::<A>()) && silent::<A>(state)
            ==> kernels::scaled_residual_of::<A>(state, scale, branch) == scale,
{
    let out = kernels::scaled_residual_of::<A>(state, scale, branch);
    if silent::<A>(scale) || silent::<A>(branch) {
        assert forall|i: int| 0 <= i < state.len() implies #[trigger] out[i] == state[i] by {
            if silent::<A>(scale) {
                assert(scale[i] == zero::<A>());
            } else {
                assert(branch[i] == zero::<A>());
            }
        }
        assert(out =~= state);
    }
    if silent::<A>(state) {
        if scale == rows::filled(state.len() as int, one::<A>()) {
            assert(out =~= branch);
        }
        if branch == rows::filled(state.len() as int, one::<A>()) {
            assert(out =~= scale);
        }
    }
}

/// Query heads share key/value heads in runs of `group`: a head of run `shared` attends over the
/// lanes of key/value head `shared`, and its result stands where the head's query stood.
pub proof fn law_heads_attend_apart<A: Arithmetic>(
    query: Seq<A::Scalar>,
    keys: Seq<Seq<A::Scalar>>,
    values: Seq<Seq<A::Scalar>>,
    heads: int,
    group: int,
    width: int,
    scale: A::Scalar,
    head: int,
    shared: int,
)
    requires
        0 <= width,
        query.len() == heads * width,
        0 <= head < heads,
        0 < group,
        shared * group <= head < shared * group + group,
    ensures
        kernels::attend_heads_of::<A>(query, keys, values, heads, group, width, scale).len()
            == heads * width,
        rows::row(
            kernels::attend_heads_of::<A>(query, keys, values, heads, group, width, scale),
            head,
            width,
        ) == kernels::attend_of::<A>(
            rows::row(query, head, width),
            kernels::head_rows(keys, shared * width, width),
            kernels::head_rows(values, shared * width, width),
            scale,
        ),
{
    let parts = Seq::new(
        heads as nat,
        |h: int|
            kernels::attend_of::<A>(
                rows::row(query, h, width),
                kernels::head_rows(keys, (h / group) * width, width),
                kernels::head_rows(values, (h / group) * width, width),
                scale,
            ),
    );
    assert forall|h: int| 0 <= h < parts.len() implies (#[trigger] parts[h]).len() == width by {
        rows::lemma_row_bounds(h, heads, width);
    }
    vstd::arithmetic::div_mod::lemma_fundamental_div_mod_converse(
        head,
        group,
        shared,
        head - shared * group,
    );
    rows::lemma_flatten_row(parts, width, head);
    rows::lemma_flatten_len(parts, width);
}

/// Every head of a row is rotated on its own, in its place.
pub proof fn law_heads_rotate_apart<A: Arithmetic>(
    x: Seq<A::Scalar>,
    heads: int,
    width: int,
    cos: Seq<A::Scalar>,
    sin: Seq<A::Scalar>,
    head: int,
)
    requires
        0 <= width,
        x.len() == heads * width,
        0 <= head < heads,
    ensures
        kernels::rope_heads_of::<A>(x, heads, width, cos, sin).len() == heads * width,
        rows::row(kernels::rope_heads_of::<A>(x, heads, width, cos, sin), head, width)
            == kernels::rope_of::<A>(rows::row(x, head, width), cos, sin),
{
    let parts = Seq::new(
        heads as nat,
        |h: int| kernels::rope_of::<A>(rows::row(x, h, width), cos, sin),
    );
    assert forall|h: int| 0 <= h < parts.len() implies (#[trigger] parts[h]).len() == width by {
        rows::lemma_row_bounds(h, heads, width);
    }
    rows::lemma_flatten_row(parts, width, head);
    rows::lemma_flatten_len(parts, width);
}

/// Where every head sees one position, the heads together take its value row whole.
pub proof fn law_heads_attend_one_position_whole<A: Arithmetic>(
    query: Seq<A::Scalar>,
    key: Seq<A::Scalar>,
    value: Seq<A::Scalar>,
    heads: int,
    width: int,
    scale: A::Scalar,
)
    requires
        algebra::units::<A>(),
        0 <= width,
        0 <= heads,
        query.len() == heads * width,
        key.len() == heads * width,
        value.len() == heads * width,
        forall|s: A::Scalar|
            #[trigger] arith::bin::<A>(Binary::Max, arith::cst::<A>(Constant::NegativeInfinity), s)
                == s,
        forall|s: A::Scalar|
            arith::un::<A>(Unary::Exp, #[trigger] minus::<A>(s, s)) == one::<A>(),
        over::<A>(one::<A>(), one::<A>()) == one::<A>(),
    ensures
        kernels::attend_heads_of::<A>(query, seq![key], seq![value], heads, 1, width, scale)
            == value,
{
    let parts = Seq::new(
        heads as nat,
        |h: int|
            kernels::attend_of::<A>(
                rows::row(query, h, width),
                kernels::head_rows(seq![key], (h / 1) * width, width),
                kernels::head_rows(seq![value], (h / 1) * width, width),
                scale,
            ),
    );
    assert forall|h: int| 0 <= h < heads implies #[trigger] parts[h] == rows::row(
        value,
        h,
        width,
    ) by {
        rows::lemma_row_bounds(h, heads, width);
        assert(h / 1 == h);
        assert(kernels::head_rows(seq![key], h * width, width) =~= seq![rows::row(key, h, width)]);
        assert(kernels::head_rows(seq![value], h * width, width) =~= seq![
            rows::row(value, h, width),
        ]);
        law_one_position_is_attended_whole::<A>(
            rows::row(query, h, width),
            rows::row(key, h, width),
            rows::row(value, h, width),
            scale,
        );
    }
    assert(parts =~= rows::unstack(value, heads, width));
    rows::lemma_flatten_unstack(value, heads, width);
}

/// The first unusable sample is not finite and every sample before it is; where there is none, all are.
pub proof fn law_the_first_unusable_sample_is_found<A: Arithmetic>(pcm: Seq<A::Scalar>, from: int)
    requires
        0 <= from <= pcm.len(),
    ensures
        match kernels::first_unusable::<A>(pcm, from) {
            Some(i) => {
                &&& from <= i < pcm.len()
                &&& !arith::chk::<A>(Check::Finite, pcm[i])
                &&& forall|j: int| from <= j < i ==> #[trigger] arith::chk::<A>(Check::Finite, pcm[j])
            },
            None => forall|j: int|
                from <= j < pcm.len() ==> #[trigger] arith::chk::<A>(Check::Finite, pcm[j]),
        },
    decreases pcm.len() - from,
{
    if from < pcm.len() {
        law_the_first_unusable_sample_is_found::<A>(pcm, from + 1);
    }
}

} // verus!
