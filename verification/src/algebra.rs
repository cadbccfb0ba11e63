//! How the primitive operations behave where an engine computes exactly.
//!
//! The laws of the layers are stated under conditions on the engine, and each names the weakest
//! condition it needs. A machine's rounding breaks some of them on some values; an exact engine,
//! over the rational numbers say, meets them all.
use vstd::prelude::*;
use crate::arith;
use crate::arith::{Arithmetic, Binary, Constant, Reduction, Unary};

verus! {

/// Zero.
pub open spec fn zero<A: Arithmetic>() -> A::Scalar {
    arith::cst::<A>(Constant::Zero)
}

/// One.
pub open spec fn one<A: Arithmetic>() -> A::Scalar {
    arith::cst::<A>(Constant::One)
}

/// `a + b`.
pub open spec fn plus<A: Arithmetic>(a: A::Scalar, b: A::Scalar) -> A::Scalar {
    arith::bin::<A>(Binary::Add, a, b)
}

/// `a - b`.
pub open spec fn minus<A: Arithmetic>(a: A::Scalar, b: A::Scalar) -> A::Scalar {
    arith::bin::<A>(Binary::Sub, a, b)
}

/// `a * b`.
pub open spec fn times<A: Arithmetic>(a: A::Scalar, b: A::Scalar) -> A::Scalar {
    arith::bin::<A>(Binary::Mul, a, b)
}

/// `a / b`.
pub open spec fn over<A: Arithmetic>(a: A::Scalar, b: A::Scalar) -> A::Scalar {
    arith::bin::<A>(Binary::Div, a, b)
}

/// That adding zero changes nothing.
pub open spec fn neutral_zero<A: Arithmetic>() -> bool {
    &&& forall|x: A::Scalar|
        #[trigger] arith::bin::<A>(Binary::Add, arith::cst::<A>(Constant::Zero), x) == x
    &&& forall|x: A::Scalar|
        #[trigger] arith::bin::<A>(Binary::Add, x, arith::cst::<A>(Constant::Zero)) == x
}

/// That zero times anything is zero.
pub open spec fn absorbing_zero<A: Arithmetic>() -> bool {
    &&& forall|x: A::Scalar|
        #[trigger] arith::bin::<A>(Binary::Mul, arith::cst::<A>(Constant::Zero), x) == zero::<A>()
    &&& forall|x: A::Scalar|
        #[trigger] arith::bin::<A>(Binary::Mul, x, arith::cst::<A>(Constant::Zero)) == zero::<A>()
}

/// That multiplying by one changes nothing.
pub open spec fn neutral_one<A: Arithmetic>() -> bool {
    &&& forall|x: A::Scalar|
        #[trigger] arith::bin::<A>(Binary::Mul, arith::cst::<A>(Constant::One), x) == x
    &&& forall|x: A::Scalar|
        #[trigger] arith::bin::<A>(Binary::Mul, x, arith::cst::<A>(Constant::One)) == x
}

/// That addition is a commutative, associative sum with zero as its unit.
#[verifier::opaque]
pub open spec fn additive<A: Arithmetic>() -> bool {
    &&& neutral_zero::<A>()
    &&& forall|x: A::Scalar, y: A::Scalar| #[trigger] plus::<A>(x, y) == plus::<A>(y, x)
    &&& forall|x: A::Scalar, y: A::Scalar, z: A::Scalar|
        #[trigger] plus::<A>(plus::<A>(x, y), z) == plus::<A>(x, plus::<A>(y, z))
}

/// That what is subtracted can be added back, and what is added taken away.
#[verifier::opaque]
pub open spec fn subtractive<A: Arithmetic>() -> bool {
    &&& forall|x: A::Scalar, y: A::Scalar| plus::<A>(#[trigger] minus::<A>(x, y), y) == x
    &&& forall|x: A::Scalar, y: A::Scalar| minus::<A>(#[trigger] plus::<A>(x, y), y) == x
}

/// The sum of the first `n` values of `term`.
pub open spec fn sum_over<A: Arithmetic>(term: spec_fn(int) -> A::Scalar, n: int) -> A::Scalar
    decreases n,
{
    if n <= 0 {
        zero::<A>()
    } else {
        plus::<A>(term(n - 1), sum_over::<A>(term, n - 1))
    }
}

/// What a reduction starts from.
pub open spec fn seed_of<A: Arithmetic>(seed: Option<A::Scalar>) -> A::Scalar {
    match seed {
        Some(value) => value,
        None => zero::<A>(),
    }
}

/// That every reduction gives its seed plus the sum of the products of its operands.
#[verifier::opaque]
pub open spec fn reduces<A: Arithmetic>() -> bool {
    forall|op: Reduction, x: Seq<A::Scalar>, y: Seq<A::Scalar>, seed: Option<A::Scalar>|
        x.len() == y.len() ==> #[trigger] arith::red::<A>(op, x, y, seed) == plus::<A>(
            seed_of::<A>(seed),
            sum_over::<A>(|i: int| times::<A>(x[i], y[i]), x.len() as int),
        )
}

/// That zero is neutral to addition and absorbs multiplication, and one is neutral to
/// multiplication.
pub open spec fn units<A: Arithmetic>() -> bool {
    &&& neutral_zero::<A>()
    &&& absorbing_zero::<A>()
    &&& neutral_one::<A>()
}

/// That `x` is one at place `k` and zero elsewhere.
pub open spec fn singles_out<A: Arithmetic>(x: Seq<A::Scalar>, k: int) -> bool {
    &&& 0 <= k < x.len()
    &&& x[k] == one::<A>()
    &&& forall|i: int| 0 <= i < x.len() && i != k ==> #[trigger] x[i] == zero::<A>()
}

/// That every value is zero.
pub open spec fn silent<A: Arithmetic>(x: Seq<A::Scalar>) -> bool {
    forall|i: int| 0 <= i < x.len() ==> #[trigger] x[i] == zero::<A>()
}

/// That every value of every row is zero.
pub open spec fn silent_rows<A: Arithmetic>(x: Seq<Seq<A::Scalar>>) -> bool {
    forall|t: int| 0 <= t < x.len() ==> silent::<A>(#[trigger] x[t])
}

/// Terms change places.
pub proof fn lemma_commutes<A: Arithmetic>(x: A::Scalar, y: A::Scalar)
    requires
        additive::<A>(),
    ensures
        plus::<A>(x, y) == plus::<A>(y, x),
{
    reveal(additive);
}

/// Brackets move.
pub proof fn lemma_associates<A: Arithmetic>(x: A::Scalar, y: A::Scalar, z: A::Scalar)
    requires
        additive::<A>(),
    ensures
        plus::<A>(plus::<A>(x, y), z) == plus::<A>(x, plus::<A>(y, z)),
{
    reveal(additive);
    assert(plus::<A>(plus::<A>(x, y), z) == plus::<A>(x, plus::<A>(y, z)));
}

/// Sums of equal terms are equal.
pub proof fn lemma_sum_alike<A: Arithmetic>(
    a: spec_fn(int) -> A::Scalar,
    b: spec_fn(int) -> A::Scalar,
    n: int,
)
    requires
        forall|i: int| 0 <= i < n ==> #[trigger] a(i) == b(i),
    ensures
        sum_over::<A>(a, n) == sum_over::<A>(b, n),
    decreases n,
{
    if n > 0 {
        lemma_sum_alike::<A>(a, b, n - 1);
        assert(a(n - 1) == b(n - 1));
    }
}

/// A sum of zeros is zero.
pub proof fn lemma_sum_of_zeros<A: Arithmetic>(term: spec_fn(int) -> A::Scalar, n: int)
    requires
        neutral_zero::<A>(),
        forall|i: int| 0 <= i < n ==> #[trigger] term(i) == zero::<A>(),
    ensures
        sum_over::<A>(term, n) == zero::<A>(),
    decreases n,
{
    if n > 0 {
        lemma_sum_of_zeros::<A>(term, n - 1);
        assert(term(n - 1) == zero::<A>());
    }
}

/// A sum whose terms are zero but for one is that one.
pub proof fn lemma_sum_of_one<A: Arithmetic>(term: spec_fn(int) -> A::Scalar, n: int, k: int)
    requires
        neutral_zero::<A>(),
        0 <= k < n,
        forall|i: int| 0 <= i < n && i != k ==> #[trigger] term(i) == zero::<A>(),
    ensures
        sum_over::<A>(term, n) == term(k),
    decreases n,
{
    if k == n - 1 {
        lemma_sum_of_zeros::<A>(term, n - 1);
    } else {
        lemma_sum_of_one::<A>(term, n - 1, k);
        assert(term(n - 1) == zero::<A>());
    }
}

/// A reduction against zeros gives its seed.
pub proof fn lemma_silent_reduction<A: Arithmetic>(
    op: Reduction,
    x: Seq<A::Scalar>,
    y: Seq<A::Scalar>,
    seed: Option<A::Scalar>,
)
    requires
        units::<A>(),
        reduces::<A>(),
        x.len() == y.len(),
        silent::<A>(x) || silent::<A>(y),
    ensures
        arith::red::<A>(op, x, y, seed) == seed_of::<A>(seed),
{
    reveal(reduces);
    let term = |i: int| times::<A>(x[i], y[i]);
    lemma_sum_of_zeros::<A>(term, x.len() as int);
    assert(arith::red::<A>(op, x, y, seed) == plus::<A>(
        seed_of::<A>(seed),
        sum_over::<A>(term, x.len() as int),
    ));
}

/// A reduction against a vector that singles out one place gives its seed plus the value there.
pub proof fn lemma_single_reduction<A: Arithmetic>(
    op: Reduction,
    x: Seq<A::Scalar>,
    y: Seq<A::Scalar>,
    seed: Option<A::Scalar>,
    k: int,
)
    requires
        units::<A>(),
        reduces::<A>(),
        x.len() == y.len(),
        singles_out::<A>(y, k),
    ensures
        arith::red::<A>(op, x, y, seed) == plus::<A>(seed_of::<A>(seed), x[k]),
{
    reveal(reduces);
    let term = |i: int| times::<A>(x[i], y[i]);
    lemma_sum_of_one::<A>(term, x.len() as int, k);
    assert(arith::red::<A>(op, x, y, seed) == plus::<A>(
        seed_of::<A>(seed),
        sum_over::<A>(term, x.len() as int),
    ));
}

/// That multiplication is associative.
#[verifier::opaque]
pub open spec fn multiplicative<A: Arithmetic>() -> bool {
    forall|x: A::Scalar, y: A::Scalar, z: A::Scalar|
        #[trigger] times::<A>(times::<A>(x, y), z) == times::<A>(x, times::<A>(y, z))
}

/// Brackets of a product move.
pub proof fn lemma_product_associates<A: Arithmetic>(x: A::Scalar, y: A::Scalar, z: A::Scalar)
    requires
        multiplicative::<A>(),
    ensures
        times::<A>(times::<A>(x, y), z) == times::<A>(x, times::<A>(y, z)),
{
    reveal(multiplicative);
    assert(times::<A>(times::<A>(x, y), z) == times::<A>(x, times::<A>(y, z)));
}

/// That the exponential turns differences into quotients: `exp(x - z) = exp(x - y) exp(y - z)`.
#[verifier::opaque]
pub open spec fn exponential<A: Arithmetic>() -> bool {
    forall|x: A::Scalar, y: A::Scalar, z: A::Scalar|
        #![trigger minus::<A>(x, y), minus::<A>(y, z)]
        arith::un::<A>(Unary::Exp, minus::<A>(x, z)) == times::<A>(
            arith::un::<A>(Unary::Exp, minus::<A>(x, y)),
            arith::un::<A>(Unary::Exp, minus::<A>(y, z)),
        )
}

/// A difference in an exponential splits.
pub proof fn lemma_exponential_splits<A: Arithmetic>(x: A::Scalar, y: A::Scalar, z: A::Scalar)
    requires
        exponential::<A>(),
    ensures
        arith::un::<A>(Unary::Exp, minus::<A>(x, z)) == times::<A>(
            arith::un::<A>(Unary::Exp, minus::<A>(x, y)),
            arith::un::<A>(Unary::Exp, minus::<A>(y, z)),
        ),
{
    reveal(exponential);
    let first = minus::<A>(x, y);
    let second = minus::<A>(y, z);
    assert(arith::un::<A>(Unary::Exp, minus::<A>(x, z)) == times::<A>(
        arith::un::<A>(Unary::Exp, first),
        arith::un::<A>(Unary::Exp, second),
    ));
}

} // verus!
