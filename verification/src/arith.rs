//! The arithmetic the model runs on.
//!
//! Nothing in this library fixes a number format. Every kernel is written against
//! [`Arithmetic`], a small set of primitive operations that an engine supplies, and every
//! contract speaks of the values those primitives return. The trait promises nothing about its
//! implementations. What a kernel states exactly, it states under [`pure`]: that each primitive
//! returns one value for one list of arguments, as every rounding mode of every machine does.
//! Shapes, lengths, indices and the absence of panics are stated without that condition.
use vstd::prelude::*;

verus! {

/// The numbers written down in the model.
#[derive(Clone, Copy, Debug, PartialEq, Eq, Structural)]
pub enum Constant {
    /// `0`.
    Zero,
    /// `1`.
    One,
    /// `2`.
    Two,
    /// `1/2`.
    Half,
    /// `1/sqrt(2)`, the factor inside the exact GELU.
    FracOneSqrtTwo,
    /// `1e-5`, the codec's RMSNorm epsilon.
    CodecRmsEpsilon,
    /// `10000`, the codec's rotary base.
    CodecRopeTheta,
    /// `1e-5`, the floor below a codebook's usage count.
    CodebookUsageEpsilon,
    /// `1e-9`, added to SnakeBeta's `beta` before the reciprocal.
    SnakeEpsilon,
    /// `1e-6`, the ConvNeXt LayerNorm epsilon.
    ConvNextEpsilon,
    /// `1e6`, the microdecoder's rotary base.
    MicroRopeTheta,
    /// `1e-6`, the microdecoder's RMSNorm epsilon.
    MicroRmsEpsilon,
    /// `1e-5`, the speech encoder's LayerNorm epsilon.
    EncoderNormEpsilon,
    /// `1/8`, the speech encoder's attention scale.
    EncoderAttentionScale,
    /// `1e-12`, the variance floor of attentive statistics pooling.
    PoolingEpsilon,
    /// `1e-5`, the mel energy floor below the logarithm.
    MelFloor,
    /// `2 * pi`.
    Tau,
    /// `1e-9`, added to a bin's energy before the square root.
    MagnitudeEpsilon,
    /// `200 / 3`, hertz per mel on the linear part of the scale.
    LinearHzPerMel,
    /// `1000`, where the logarithmic part of the mel scale begins.
    LogStartHz,
    /// `0.06875178`, the step of its logarithm per mel.
    LogStep,
    /// `1.05`, the talker's repetition penalty.
    RepetitionPenalty,
    /// `0.9`, the sampling temperature.
    Temperature,
    /// Negative infinity.
    NegativeInfinity,
    /// Positive infinity.
    Infinity,
    /// `100`, the divisor of the draft heads' starting weights.
    Hundred,
    /// `1000`, the scale between a distilled projection and a code.
    DistilledScale,
    /// `777`, the scale between a parallel head and a code.
    ParallelScale,
    /// `0.1`, the step of the parallel heads' starting biases.
    Tenth,
    /// `127`, the largest magnitude of a stored draft weight.
    DraftPeak,
    /// `0.01`, the default risk level of the speculation monitor.
    DefaultAlpha,
    /// `2.5`, the default entropy above which a frame is difficult.
    EntropyThreshold,
    /// `20`, the bound of the water-filling search.
    WaterBound,
    /// `1e-6`, the variance floor of the water-filling search.
    VarianceFloor,
}

/// Operations on one number.
#[derive(Clone, Copy, Debug, PartialEq, Eq, Structural)]
pub enum Unary {
    /// `-a`.
    Neg,
    /// `|a|`.
    Abs,
    /// `1 / a`.
    Recip,
    /// `sqrt(a)`.
    Sqrt,
    /// `exp(a)`.
    Exp,
    /// `exp(a) - 1`.
    ExpMinusOne,
    /// `ln(a)`.
    Ln,
    /// `sin(a)`.
    Sin,
    /// `cos(a)`.
    Cos,
    /// `tanh(a)`.
    Tanh,
    /// `erf(a)`.
    Erf,
    /// `a` clamped into `[-1, 1]`.
    ClampUnit,
    /// The whole number nearest to `a`, halves away from zero.
    Round,
}

/// Operations on two numbers.
#[derive(Clone, Copy, Debug, PartialEq, Eq, Structural)]
pub enum Binary {
    /// `a + b`.
    Add,
    /// `a - b`.
    Sub,
    /// `a * b`.
    Mul,
    /// `a / b`.
    Div,
    /// The larger of the two.
    Max,
    /// The smaller of the two.
    Min,
    /// `a` to the power `b`.
    Pow,
}

/// Questions about two numbers.
#[derive(Clone, Copy, Debug, PartialEq, Eq, Structural)]
pub enum Relation {
    /// `a < b`.
    Less,
    /// `a <= b`.
    AtMost,
    /// Whether `a` stands before `b` in the total order of the number format.
    TotallyBelow,
}

/// Questions about one number.
#[derive(Clone, Copy, Debug, PartialEq, Eq, Structural)]
pub enum Check {
    /// Neither infinite nor undefined.
    Finite,
    /// Undefined, or positive infinity.
    UndefinedOrInfinite,
}

/// Sums of products whose order of accumulation belongs to the engine.
#[derive(Clone, Copy, Debug, PartialEq, Eq, Structural)]
pub enum Reduction {
    /// A dense layer's scalar sum, the seed being its bias.
    Dense,
    /// A bias-free convolution's sum.
    Convolution,
    /// A convolution's sum, the bias seeding the accumulator, in an order that does not depend on
    /// how many rows are convolved together.
    SeededConvolution,
    /// A convolution's sum over a whole clip, the bias seeding the accumulator.
    ClipConvolution,
    /// The sum of squares inside the codec's RMSNorm; the second operand equals the first.
    SquareSum,
}

/// The primitive operations of one number format on one machine.
pub trait Arithmetic: Sized {
    /// One number.
    type Scalar: Copy;

    /// The value of a written constant.
    fn constant(name: Constant) -> Self::Scalar;

    /// A count as a number.
    fn count(n: usize) -> Self::Scalar;

    /// An operation on one number.
    fn unary(op: Unary, a: Self::Scalar) -> Self::Scalar;

    /// An operation on two numbers.
    fn binary(op: Binary, a: Self::Scalar, b: Self::Scalar) -> Self::Scalar;

    /// A question about two numbers.
    fn relation(op: Relation, a: Self::Scalar, b: Self::Scalar) -> bool;

    /// A question about one number.
    fn check(op: Check, a: Self::Scalar) -> bool;

    /// The largest count that is not above `a`, and zero where there is none.
    fn truncate(a: Self::Scalar) -> usize;

    /// A sum of products of two equally long vectors, from the seed where there is one.
    fn reduce(
        op: Reduction,
        x: &[Self::Scalar],
        y: &[Self::Scalar],
        seed: Option<Self::Scalar>,
    ) -> Self::Scalar;
}

/// That `r` is a value the engine may return for a written constant.
pub open spec fn may_constant<A: Arithmetic>(name: Constant, r: A::Scalar) -> bool {
    call_ensures(A::constant, (name,), r)
}

/// That `r` is a value the engine may return for a count.
pub open spec fn may_count<A: Arithmetic>(n: usize, r: A::Scalar) -> bool {
    call_ensures(A::count, (n,), r)
}

/// That `r` is a value the engine may return for a unary operation.
pub open spec fn may_unary<A: Arithmetic>(op: Unary, a: A::Scalar, r: A::Scalar) -> bool {
    call_ensures(A::unary, (op, a), r)
}

/// That `r` is a value the engine may return for a binary operation.
pub open spec fn may_binary<A: Arithmetic>(
    op: Binary,
    a: A::Scalar,
    b: A::Scalar,
    r: A::Scalar,
) -> bool {
    call_ensures(A::binary, (op, a, b), r)
}

/// That `r` is an answer the engine may give about two numbers.
pub open spec fn may_relation<A: Arithmetic>(
    op: Relation,
    a: A::Scalar,
    b: A::Scalar,
    r: bool,
) -> bool {
    call_ensures(A::relation, (op, a, b), r)
}

/// That `r` is an answer the engine may give about one number.
pub open spec fn may_check<A: Arithmetic>(op: Check, a: A::Scalar, r: bool) -> bool {
    call_ensures(A::check, (op, a), r)
}

/// That `r` is a count the engine may truncate a number to.
pub open spec fn may_truncate<A: Arithmetic>(a: A::Scalar, r: usize) -> bool {
    call_ensures(A::truncate, (a,), r)
}

/// That `r` is a value the engine may return for a sum of products.
pub open spec fn may_reduce<A: Arithmetic>(
    op: Reduction,
    x: Seq<A::Scalar>,
    y: Seq<A::Scalar>,
    seed: Option<A::Scalar>,
    r: A::Scalar,
) -> bool {
    exists|xs: &[A::Scalar], ys: &[A::Scalar]|
        xs@ == x && ys@ == y && #[trigger] call_ensures(A::reduce, (op, xs, ys, seed), r)
}

/// That the engine is a function of its arguments: one list of arguments, one result.
#[verifier::opaque]
pub open spec fn pure<A: Arithmetic>() -> bool {
    &&& forall|name: Constant, r: A::Scalar, s: A::Scalar|
        #![trigger may_constant::<A>(name, r), may_constant::<A>(name, s)]
        may_constant::<A>(name, r) && may_constant::<A>(name, s) ==> r == s
    &&& forall|n: usize, r: A::Scalar, s: A::Scalar|
        #![trigger may_count::<A>(n, r), may_count::<A>(n, s)]
        may_count::<A>(n, r) && may_count::<A>(n, s) ==> r == s
    &&& forall|op: Unary, a: A::Scalar, r: A::Scalar, s: A::Scalar|
        #![trigger may_unary::<A>(op, a, r), may_unary::<A>(op, a, s)]
        may_unary::<A>(op, a, r) && may_unary::<A>(op, a, s) ==> r == s
    &&& forall|op: Binary, a: A::Scalar, b: A::Scalar, r: A::Scalar, s: A::Scalar|
        #![trigger may_binary::<A>(op, a, b, r), may_binary::<A>(op, a, b, s)]
        may_binary::<A>(op, a, b, r) && may_binary::<A>(op, a, b, s) ==> r == s
    &&& forall|op: Relation, a: A::Scalar, b: A::Scalar, r: bool, s: bool|
        #![trigger may_relation::<A>(op, a, b, r), may_relation::<A>(op, a, b, s)]
        may_relation::<A>(op, a, b, r) && may_relation::<A>(op, a, b, s) ==> r == s
    &&& forall|op: Check, a: A::Scalar, r: bool, s: bool|
        #![trigger may_check::<A>(op, a, r), may_check::<A>(op, a, s)]
        may_check::<A>(op, a, r) && may_check::<A>(op, a, s) ==> r == s
    &&& forall|a: A::Scalar, r: usize, s: usize|
        #![trigger may_truncate::<A>(a, r), may_truncate::<A>(a, s)]
        may_truncate::<A>(a, r) && may_truncate::<A>(a, s) ==> r == s
    &&& forall|
        op: Reduction,
        x: Seq<A::Scalar>,
        y: Seq<A::Scalar>,
        seed: Option<A::Scalar>,
        r: A::Scalar,
        s: A::Scalar,
    |
        #![trigger may_reduce::<A>(op, x, y, seed, r), may_reduce::<A>(op, x, y, seed, s)]
        may_reduce::<A>(op, x, y, seed, r) && may_reduce::<A>(op, x, y, seed, s) ==> r == s
}

/// The value of a written constant.
#[verifier::opaque]
pub open spec fn cst<A: Arithmetic>(name: Constant) -> A::Scalar {
    choose|r: A::Scalar| may_constant::<A>(name, r)
}

/// The value of a count.
#[verifier::opaque]
pub open spec fn num<A: Arithmetic>(n: usize) -> A::Scalar {
    choose|r: A::Scalar| may_count::<A>(n, r)
}

/// The value of a unary operation.
#[verifier::opaque]
pub open spec fn un<A: Arithmetic>(op: Unary, a: A::Scalar) -> A::Scalar {
    choose|r: A::Scalar| may_unary::<A>(op, a, r)
}

/// The value of a binary operation.
#[verifier::opaque]
pub open spec fn bin<A: Arithmetic>(op: Binary, a: A::Scalar, b: A::Scalar) -> A::Scalar {
    choose|r: A::Scalar| may_binary::<A>(op, a, b, r)
}

/// The answer about two numbers.
#[verifier::opaque]
pub open spec fn rel<A: Arithmetic>(op: Relation, a: A::Scalar, b: A::Scalar) -> bool {
    choose|r: bool| may_relation::<A>(op, a, b, r)
}

/// The answer about one number.
#[verifier::opaque]
pub open spec fn chk<A: Arithmetic>(op: Check, a: A::Scalar) -> bool {
    choose|r: bool| may_check::<A>(op, a, r)
}

/// The count a number truncates to.
#[verifier::opaque]
pub open spec fn trunc<A: Arithmetic>(a: A::Scalar) -> usize {
    choose|r: usize| may_truncate::<A>(a, r)
}

/// The value of a sum of products.
#[verifier::opaque]
pub open spec fn red<A: Arithmetic>(
    op: Reduction,
    x: Seq<A::Scalar>,
    y: Seq<A::Scalar>,
    seed: Option<A::Scalar>,
) -> A::Scalar {
    choose|r: A::Scalar| may_reduce::<A>(op, x, y, seed, r)
}

/// The value of a written constant.
pub fn constant<A: Arithmetic>(name: Constant) -> (r: A::Scalar)
    ensures
        pure::<A>() ==> r == cst::<A>(name),
{
    reveal(pure);
    reveal(cst);
    let r = A::constant(name);
    assert(may_constant::<A>(name, r));
    r
}

/// A count as a number.
pub fn count<A: Arithmetic>(n: usize) -> (r: A::Scalar)
    ensures
        pure::<A>() ==> r == num::<A>(n),
{
    reveal(pure);
    reveal(num);
    let r = A::count(n);
    assert(may_count::<A>(n, r));
    r
}

/// An operation on one number.
pub fn unary<A: Arithmetic>(op: Unary, a: A::Scalar) -> (r: A::Scalar)
    ensures
        pure::<A>() ==> r == un::<A>(op, a),
{
    reveal(pure);
    reveal(un);
    let r = A::unary(op, a);
    assert(may_unary::<A>(op, a, r));
    r
}

/// An operation on two numbers.
pub fn binary<A: Arithmetic>(op: Binary, a: A::Scalar, b: A::Scalar) -> (r: A::Scalar)
    ensures
        pure::<A>() ==> r == bin::<A>(op, a, b),
{
    reveal(pure);
    reveal(bin);
    let r = A::binary(op, a, b);
    assert(may_binary::<A>(op, a, b, r));
    r
}

/// A question about two numbers.
pub fn relation<A: Arithmetic>(op: Relation, a: A::Scalar, b: A::Scalar) -> (r: bool)
    ensures
        pure::<A>() ==> r == rel::<A>(op, a, b),
{
    reveal(pure);
    reveal(rel);
    let r = A::relation(op, a, b);
    assert(may_relation::<A>(op, a, b, r));
    r
}

/// A question about one number.
pub fn check<A: Arithmetic>(op: Check, a: A::Scalar) -> (r: bool)
    ensures
        pure::<A>() ==> r == chk::<A>(op, a),
{
    reveal(pure);
    reveal(chk);
    let r = A::check(op, a);
    assert(may_check::<A>(op, a, r));
    r
}

/// The count a number truncates to.
pub fn truncate<A: Arithmetic>(a: A::Scalar) -> (r: usize)
    ensures
        pure::<A>() ==> r == trunc::<A>(a),
{
    reveal(pure);
    reveal(trunc);
    let r: usize = A::truncate(a);
    assert(may_truncate::<A>(a, r));
    r
}

/// A sum of products whose order belongs to the engine.
pub fn reduce<A: Arithmetic>(
    op: Reduction,
    x: &[A::Scalar],
    y: &[A::Scalar],
    seed: Option<A::Scalar>,
) -> (r: A::Scalar)
    requires
        x@.len() == y@.len(),
    ensures
        pure::<A>() ==> r == red::<A>(op, x@, y@, seed),
{
    reveal(pure);
    reveal(red);
    let r = A::reduce(op, x, y, seed);
    assert(call_ensures(A::reduce, (op, x, y, seed), r));
    assert(may_reduce::<A>(op, x@, y@, seed, r));
    r
}

} // verus!
