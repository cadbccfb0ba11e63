//! The vector kernels the layers are built from.
//!
//! Each kernel fixes which values meet which, in which order. The order of a left-to-right sum
//! is written out; the order inside an engine reduction stays the engine's.
use vstd::prelude::*;
use crate::arith;
use crate::arith::{
    binary, check, constant, count, reduce, unary, Arithmetic, Binary, Check, Constant, Reduction,
    Unary,
};
use crate::rows;
use crate::rows::{join_rows, row_of};

verus! {

/// The keys and values one layer has cached, oldest first.
pub struct KvRows<S> {
    /// One key row per position.
    pub keys: Seq<Seq<S>>,
    /// One value row per position.
    pub values: Seq<Seq<S>>,
}

/// An empty cache.
pub open spec fn no_rows<S>() -> KvRows<S> {
    KvRows { keys: Seq::empty(), values: Seq::empty() }
}

/// `x` and `y` combined place by place.
pub open spec fn zip<A: Arithmetic>(
    op: Binary,
    x: Seq<A::Scalar>,
    y: Seq<A::Scalar>,
) -> Seq<A::Scalar> {
    Seq::new(x.len(), |i: int| arith::bin::<A>(op, x[i], y[i]))
}

/// One operation at every place of `x`.
pub open spec fn map<A: Arithmetic>(op: Unary, x: Seq<A::Scalar>) -> Seq<A::Scalar> {
    Seq::new(x.len(), |i: int| arith::un::<A>(op, x[i]))
}

/// The sum of the first `n` products, left to right from zero.
pub open spec fn dot<A: Arithmetic>(x: Seq<A::Scalar>, y: Seq<A::Scalar>, n: int) -> A::Scalar
    decreases n,
{
    if n <= 0 {
        arith::cst::<A>(Constant::Zero)
    } else {
        arith::bin::<A>(Binary::Add, dot::<A>(x, y, n - 1), arith::bin::<A>(Binary::Mul, x[n - 1], y[n - 1]))
    }
}

/// The sum of the first `n` values, left to right from zero.
pub open spec fn total<A: Arithmetic>(x: Seq<A::Scalar>, n: int) -> A::Scalar
    decreases n,
{
    if n <= 0 {
        arith::cst::<A>(Constant::Zero)
    } else {
        arith::bin::<A>(Binary::Add, total::<A>(x, n - 1), x[n - 1])
    }
}

/// The largest of the first `n` values, from negative infinity.
pub open spec fn peak<A: Arithmetic>(x: Seq<A::Scalar>, n: int) -> A::Scalar
    decreases n,
{
    if n <= 0 {
        arith::cst::<A>(Constant::NegativeInfinity)
    } else {
        arith::bin::<A>(Binary::Max, peak::<A>(x, n - 1), x[n - 1])
    }
}

/// `[n, k]` weights times a vector: one left-to-right sum per row.
pub open spec fn matvec_of<A: Arithmetic>(
    weight: Seq<A::Scalar>,
    x: Seq<A::Scalar>,
    n: int,
) -> Seq<A::Scalar> {
    Seq::new(n as nat, |o: int| dot::<A>(rows::row(weight, o, x.len() as int), x, x.len() as int))
}

/// The bias of output `o`, where there is a bias.
pub open spec fn bias_at<T>(bias: Option<Seq<T>>, o: int) -> Option<T> {
    match bias {
        Some(values) => Some(values[o]),
        None => None,
    }
}

/// `[n, k]` weights times a vector, each row by one engine reduction seeded with its bias.
pub open spec fn linear_of<A: Arithmetic>(
    op: Reduction,
    x: Seq<A::Scalar>,
    weight: Seq<A::Scalar>,
    bias: Option<Seq<A::Scalar>>,
    n: int,
) -> Seq<A::Scalar> {
    Seq::new(n as nat, |o: int| arith::red::<A>(op, x, rows::row(weight, o, x.len() as int), bias_at(bias, o)))
}

/// The numerators of a softmax.
pub open spec fn softmax_terms<A: Arithmetic>(x: Seq<A::Scalar>) -> Seq<A::Scalar> {
    Seq::new(
        x.len(),
        |i: int| arith::un::<A>(Unary::Exp, arith::bin::<A>(Binary::Sub, x[i], peak::<A>(x, x.len() as int))),
    )
}

/// Softmax with the largest value taken out first, each numerator divided by their sum.
pub open spec fn softmax_of<A: Arithmetic>(x: Seq<A::Scalar>) -> Seq<A::Scalar> {
    let terms = softmax_terms::<A>(x);
    Seq::new(
        x.len(),
        |i: int| arith::bin::<A>(Binary::Div, terms[i], total::<A>(terms, x.len() as int)),
    )
}

/// `x / (1 + exp(-x))`.
pub open spec fn silu_of<A: Arithmetic>(x: A::Scalar) -> A::Scalar {
    arith::bin::<A>(
        Binary::Div,
        x,
        arith::bin::<A>(
            Binary::Add,
            arith::cst::<A>(Constant::One),
            arith::un::<A>(Unary::Exp, arith::un::<A>(Unary::Neg, x)),
        ),
    )
}

/// The SwiGLU product of a gate and its partner.
pub open spec fn swiglu_of<A: Arithmetic>(
    gate: Seq<A::Scalar>,
    up: Seq<A::Scalar>,
) -> Seq<A::Scalar> {
    Seq::new(gate.len(), |i: int| arith::bin::<A>(Binary::Mul, silu_of::<A>(gate[i]), up[i]))
}

/// One head rotated by half: place `i` of the first half pairs with place `i` of the second.
pub open spec fn rope_of<A: Arithmetic>(
    x: Seq<A::Scalar>,
    cos: Seq<A::Scalar>,
    sin: Seq<A::Scalar>,
) -> Seq<A::Scalar> {
    let half = x.len() as int / 2;
    Seq::new(
        x.len(),
        |i: int|
            if i < half {
                arith::bin::<A>(
                    Binary::Sub,
                    arith::bin::<A>(Binary::Mul, x[i], cos[i]),
                    arith::bin::<A>(Binary::Mul, x[i + half], sin[i]),
                )
            } else {
                arith::bin::<A>(
                    Binary::Add,
                    arith::bin::<A>(Binary::Mul, x[i], cos[i]),
                    arith::bin::<A>(Binary::Mul, x[i - half], sin[i]),
                )
            },
    )
}

/// The part of each row that belongs to one head.
pub open spec fn head_rows<T>(rows: Seq<Seq<T>>, offset: int, width: int) -> Seq<Seq<T>> {
    Seq::new(rows.len(), |i: int| rows[i].subrange(offset, offset + width))
}

/// The scaled scores of one query against the cached keys.
pub open spec fn scores_of<A: Arithmetic>(
    query: Seq<A::Scalar>,
    keys: Seq<Seq<A::Scalar>>,
    scale: A::Scalar,
) -> Seq<A::Scalar> {
    Seq::new(
        keys.len(),
        |i: int| arith::bin::<A>(Binary::Mul, dot::<A>(query, keys[i], query.len() as int), scale),
    )
}

/// One lane of the weighted sum of the first `n` cached values, oldest first, from zero.
pub open spec fn mixed_lane<A: Arithmetic>(
    weights: Seq<A::Scalar>,
    values: Seq<Seq<A::Scalar>>,
    lane: int,
    n: int,
) -> A::Scalar
    decreases n,
{
    if n <= 0 {
        arith::cst::<A>(Constant::Zero)
    } else {
        arith::bin::<A>(
            Binary::Add,
            mixed_lane::<A>(weights, values, lane, n - 1),
            arith::bin::<A>(Binary::Mul, weights[n - 1], values[n - 1][lane]),
        )
    }
}

/// Softmax attention of one query head over cached keys and values.
pub open spec fn attend_of<A: Arithmetic>(
    query: Seq<A::Scalar>,
    keys: Seq<Seq<A::Scalar>>,
    values: Seq<Seq<A::Scalar>>,
    scale: A::Scalar,
) -> Seq<A::Scalar> {
    let weights = softmax_of::<A>(scores_of::<A>(query, keys, scale));
    Seq::new(query.len(), |lane: int| mixed_lane::<A>(weights, values, lane, keys.len() as int))
}

/// `x` and `y` combined place by place.
pub fn zip_with<A: Arithmetic>(
    op: Binary,
    x: &[A::Scalar],
    y: &[A::Scalar],
) -> (out: Vec<A::Scalar>)
    requires
        x@.len() == y@.len(),
    ensures
        out@.len() == x@.len(),
        arith::pure::<A>() ==> out@ == zip::<A>(op, x@, y@),
{
    let mut out: Vec<A::Scalar> = Vec::new();
    for i in 0..x.len()
        invariant
            x@.len() == y@.len(),
            out@.len() == i,
            arith::pure::<A>() ==> forall|j: int| 0 <= j < i ==> out@[j] == arith::bin::<A>(op, x@[j], y@[j]),
    {
        out.push(binary::<A>(op, x[i], y[i]));
    }
    proof {
        if arith::pure::<A>() {
            assert(out@ =~= zip::<A>(op, x@, y@));
        }
    }
    out
}

/// One operation at every place of `x`.
pub fn map_each<A: Arithmetic>(op: Unary, x: &[A::Scalar]) -> (out: Vec<A::Scalar>)
    ensures
        out@.len() == x@.len(),
        arith::pure::<A>() ==> out@ == map::<A>(op, x@),
{
    let mut out: Vec<A::Scalar> = Vec::new();
    for i in 0..x.len()
        invariant
            out@.len() == i,
            arith::pure::<A>() ==> forall|j: int| 0 <= j < i ==> out@[j] == arith::un::<A>(op, x@[j]),
    {
        out.push(unary::<A>(op, x[i]));
    }
    proof {
        if arith::pure::<A>() {
            assert(out@ =~= map::<A>(op, x@));
        }
    }
    out
}

/// The left-to-right sum of products of two vectors.
pub fn dot_product<A: Arithmetic>(x: &[A::Scalar], y: &[A::Scalar]) -> (r: A::Scalar)
    requires
        x@.len() == y@.len(),
    ensures
        arith::pure::<A>() ==> r == dot::<A>(x@, y@, x@.len() as int),
{
    let mut sum = constant::<A>(Constant::Zero);
    for i in 0..x.len()
        invariant
            x@.len() == y@.len(),
            arith::pure::<A>() ==> sum == dot::<A>(x@, y@, i as int),
    {
        sum = binary::<A>(Binary::Add, sum, binary::<A>(Binary::Mul, x[i], y[i]));
    }
    sum
}

/// The left-to-right sum of a vector.
pub fn sum_of<A: Arithmetic>(x: &[A::Scalar]) -> (r: A::Scalar)
    ensures
        arith::pure::<A>() ==> r == total::<A>(x@, x@.len() as int),
{
    let mut sum = constant::<A>(Constant::Zero);
    for i in 0..x.len()
        invariant
            arith::pure::<A>() ==> sum == total::<A>(x@, i as int),
    {
        sum = binary::<A>(Binary::Add, sum, x[i]);
    }
    sum
}

/// The largest value of a vector.
pub fn peak_of<A: Arithmetic>(x: &[A::Scalar]) -> (r: A::Scalar)
    ensures
        arith::pure::<A>() ==> r == peak::<A>(x@, x@.len() as int),
{
    let mut best = constant::<A>(Constant::NegativeInfinity);
    for i in 0..x.len()
        invariant
            arith::pure::<A>() ==> best == peak::<A>(x@, i as int),
    {
        best = binary::<A>(Binary::Max, best, x[i]);
    }
    best
}

/// Row-major `[n, k]` weights times a vector of width `k`.
pub fn matvec<A: Arithmetic>(weight: &[A::Scalar], x: &[A::Scalar], n: usize) -> (out: Vec<
    A::Scalar,
>)
    requires
        weight@.len() == n * x@.len(),
    ensures
        out@.len() == n,
        arith::pure::<A>() ==> out@ == matvec_of::<A>(weight@, x@, n as int),
{
    let mut out: Vec<A::Scalar> = Vec::new();
    let k: usize = x.len();
    for o in 0..n
        invariant
            k == x@.len(),
            weight@.len() == n * k,
            out@.len() == o,
            arith::pure::<A>() ==> forall|j: int|
                0 <= j < o ==> out@[j] == dot::<A>(rows::row(weight@, j, k as int), x@, k as int),
    {
        proof {
            rows::lemma_row_bounds(o as int, n as int, k as int);
        }
        out.push(dot_product::<A>(row_of(weight, o, k), x));
    }
    proof {
        if arith::pure::<A>() {
            assert(out@ =~= matvec_of::<A>(weight@, x@, n as int));
        }
    }
    out
}

/// Row-major `[n, k]` weights times a vector of width `k`, by engine reductions.
pub fn linear<A: Arithmetic>(
    op: Reduction,
    x: &[A::Scalar],
    weight: &[A::Scalar],
    bias: Option<&[A::Scalar]>,
    n: usize,
) -> (out: Vec<A::Scalar>)
    requires
        weight@.len() == n * x@.len(),
        bias matches Some(b) ==> b@.len() == n,
    ensures
        out@.len() == n,
        arith::pure::<A>() ==> out@ == linear_of::<A>(op, x@, weight@, opt_view(bias), n as int),
{
    let mut out: Vec<A::Scalar> = Vec::new();
    let k: usize = x.len();
    for o in 0..n
        invariant
            k == x@.len(),
            weight@.len() == n * k,
            bias matches Some(b) ==> b@.len() == n,
            out@.len() == o,
            arith::pure::<A>() ==> forall|j: int|
                0 <= j < o ==> out@[j] == arith::red::<A>(
                    op,
                    x@,
                    rows::row(weight@, j, k as int),
                    bias_at(opt_view(bias), j),
                ),
    {
        proof {
            rows::lemma_row_bounds(o as int, n as int, k as int);
        }
        let seed = match bias {
            Some(values) => Some(values[o]),
            None => None,
        };
        out.push(reduce::<A>(op, x, row_of(weight, o, k), seed));
    }
    proof {
        if arith::pure::<A>() {
            assert(out@ =~= linear_of::<A>(op, x@, weight@, opt_view(bias), n as int));
        }
    }
    out
}

/// The contents of an optional buffer.
pub open spec fn opt_view<T>(x: Option<&[T]>) -> Option<Seq<T>> {
    match x {
        Some(values) => Some(values@),
        None => None,
    }
}

/// Softmax of one row.
pub fn softmax<A: Arithmetic>(x: &[A::Scalar]) -> (out: Vec<A::Scalar>)
    ensures
        out@.len() == x@.len(),
        arith::pure::<A>() ==> out@ == softmax_of::<A>(x@),
{
    let best = peak_of::<A>(x);
    let mut terms: Vec<A::Scalar> = Vec::new();
    for i in 0..x.len()
        invariant
            arith::pure::<A>() ==> best == peak::<A>(x@, x@.len() as int),
            terms@.len() == i,
            arith::pure::<A>() ==> forall|j: int|
                0 <= j < i ==> terms@[j] == arith::un::<A>(
                    Unary::Exp,
                    arith::bin::<A>(Binary::Sub, x@[j], peak::<A>(x@, x@.len() as int)),
                ),
    {
        terms.push(unary::<A>(Unary::Exp, binary::<A>(Binary::Sub, x[i], best)));
    }
    proof {
        if arith::pure::<A>() {
            assert(terms@ =~= softmax_terms::<A>(x@));
        }
    }
    let sum = sum_of::<A>(terms.as_slice());
    let mut out: Vec<A::Scalar> = Vec::new();
    for i in 0..terms.len()
        invariant
            terms@.len() == x@.len(),
            arith::pure::<A>() ==> sum == total::<A>(terms@, x@.len() as int),
            out@.len() == i,
            arith::pure::<A>() ==> forall|j: int|
                0 <= j < i ==> out@[j] == arith::bin::<A>(
                    Binary::Div,
                    terms@[j],
                    total::<A>(terms@, x@.len() as int),
                ),
    {
        out.push(binary::<A>(Binary::Div, terms[i], sum));
    }
    proof {
        if arith::pure::<A>() {
            assert(out@ =~= softmax_of::<A>(x@));
        }
    }
    out
}

/// `x / (1 + exp(-x))`.
pub fn silu<A: Arithmetic>(x: A::Scalar) -> (r: A::Scalar)
    ensures
        arith::pure::<A>() ==> r == silu_of::<A>(x),
{
    binary::<A>(
        Binary::Div,
        x,
        binary::<A>(
            Binary::Add,
            constant::<A>(Constant::One),
            unary::<A>(Unary::Exp, unary::<A>(Unary::Neg, x)),
        ),
    )
}

/// The SwiGLU product of a gate and its partner.
pub fn swiglu<A: Arithmetic>(gate: &[A::Scalar], up: &[A::Scalar]) -> (out: Vec<A::Scalar>)
    requires
        gate@.len() == up@.len(),
    ensures
        out@.len() == gate@.len(),
        arith::pure::<A>() ==> out@ == swiglu_of::<A>(gate@, up@),
{
    let mut out: Vec<A::Scalar> = Vec::new();
    for i in 0..gate.len()
        invariant
            gate@.len() == up@.len(),
            out@.len() == i,
            arith::pure::<A>() ==> forall|j: int|
                0 <= j < i ==> out@[j] == arith::bin::<A>(Binary::Mul, silu_of::<A>(gate@[j]), up@[j]),
    {
        out.push(binary::<A>(Binary::Mul, silu::<A>(gate[i]), up[i]));
    }
    proof {
        if arith::pure::<A>() {
            assert(out@ =~= swiglu_of::<A>(gate@, up@));
        }
    }
    out
}

/// One head rotated by half.
pub fn rope<A: Arithmetic>(x: &[A::Scalar], cos: &[A::Scalar], sin: &[A::Scalar]) -> (out: Vec<
    A::Scalar,
>)
    requires
        x@.len() == cos@.len(),
        x@.len() == sin@.len(),
        x@.len() % 2 == 0,
    ensures
        out@.len() == x@.len(),
        arith::pure::<A>() ==> out@ == rope_of::<A>(x@, cos@, sin@),
{
    let half: usize = x.len() / 2;
    let mut out: Vec<A::Scalar> = Vec::new();
    for i in 0..x.len()
        invariant
            x@.len() == cos@.len(),
            x@.len() == sin@.len(),
            half + half == x@.len(),
            half == x@.len() as int / 2,
            out@.len() == i,
            arith::pure::<A>() ==> forall|j: int|
                0 <= j < i ==> out@[j] == rope_of::<A>(x@, cos@, sin@)[j],
    {
        let straight = binary::<A>(Binary::Mul, x[i], cos[i]);
        if i < half {
            let crossed = binary::<A>(Binary::Mul, x[i + half], sin[i]);
            out.push(binary::<A>(Binary::Sub, straight, crossed));
        } else {
            let crossed = binary::<A>(Binary::Mul, x[i - half], sin[i]);
            out.push(binary::<A>(Binary::Add, straight, crossed));
        }
    }
    proof {
        if arith::pure::<A>() {
            assert(out@ =~= rope_of::<A>(x@, cos@, sin@));
        }
    }
    out
}

/// Softmax attention of one query head over the cached rows, reading `query.len()` lanes of each
/// row from `offset`.
pub fn attend<A: Arithmetic>(
    query: &[A::Scalar],
    keys: &Vec<Vec<A::Scalar>>,
    values: &Vec<Vec<A::Scalar>>,
    offset: usize,
    scale: A::Scalar,
) -> (out: Vec<A::Scalar>)
    requires
        keys@.len() == values@.len(),
        forall|i: int| 0 <= i < keys@.len() ==> offset + query@.len() <= (#[trigger] keys@[i])@.len(),
        forall|i: int|
            0 <= i < values@.len() ==> offset + query@.len() <= (#[trigger] values@[i])@.len(),
        offset + query@.len() <= usize::MAX,
    ensures
        out@.len() == query@.len(),
        arith::pure::<A>() ==> out@ == attend_of::<A>(
            query@,
            head_rows(rows::deep(keys@), offset as int, query@.len() as int),
            head_rows(rows::deep(values@), offset as int, query@.len() as int),
            scale,
        ),
{
    let width: usize = query.len();
    let ghost key_heads = head_rows(rows::deep(keys@), offset as int, width as int);
    let ghost value_heads = head_rows(rows::deep(values@), offset as int, width as int);
    let mut scores: Vec<A::Scalar> = Vec::new();
    for i in 0..keys.len()
        invariant
            width == query@.len(),
            offset + width <= usize::MAX,
            forall|j: int| 0 <= j < keys@.len() ==> offset + width <= (#[trigger] keys@[j])@.len(),
            key_heads == head_rows(rows::deep(keys@), offset as int, width as int),
            scores@.len() == i,
            arith::pure::<A>() ==> forall|j: int|
                0 <= j < i ==> scores@[j] == arith::bin::<A>(
                    Binary::Mul,
                    dot::<A>(query@, key_heads[j], query@.len() as int),
                    scale,
                ),
    {
        let key = vstd::slice::slice_subrange(keys[i].as_slice(), offset, offset + width);
        proof {
            assert(key@ == key_heads[i as int]);
        }
        scores.push(binary::<A>(Binary::Mul, dot_product::<A>(query, key), scale));
    }
    proof {
        if arith::pure::<A>() {
            assert(scores@ =~= scores_of::<A>(query@, key_heads, scale));
        }
    }
    let weights = softmax::<A>(scores.as_slice());
    let mut out: Vec<A::Scalar> = Vec::new();
    for lane in 0..width
        invariant
            width == query@.len(),
            offset + width <= usize::MAX,
            weights@.len() == values@.len(),
            forall|j: int|
                0 <= j < values@.len() ==> offset + width <= (#[trigger] values@[j])@.len(),
            value_heads == head_rows(rows::deep(values@), offset as int, width as int),
            out@.len() == lane,
            arith::pure::<A>() ==> forall|j: int|
                0 <= j < lane ==> out@[j] == mixed_lane::<A>(
                    weights@,
                    value_heads,
                    j,
                    values@.len() as int,
                ),
    {
        let mut sum = constant::<A>(Constant::Zero);
        for p in 0..values.len()
            invariant
                lane < width,
                offset + width <= usize::MAX,
                weights@.len() == values@.len(),
                forall|j: int|
                    0 <= j < values@.len() ==> offset + width <= (#[trigger] values@[j])@.len(),
                value_heads == head_rows(rows::deep(values@), offset as int, width as int),
                arith::pure::<A>() ==> sum == mixed_lane::<A>(weights@, value_heads, lane as int, p as int),
        {
            proof {
                assert(values@[p as int]@[offset + lane] == value_heads[p as int][lane as int]);
            }
            let part = binary::<A>(Binary::Mul, weights[p], values[p][offset + lane]);
            sum = binary::<A>(Binary::Add, sum, part);
        }
        out.push(sum);
    }
    proof {
        if arith::pure::<A>() {
            assert(out@ =~= attend_of::<A>(query@, key_heads, value_heads, scale));
        }
    }
    out
}

/// Every head of a query row attending over the cached rows; `group` query heads share one
/// key/value head.
pub open spec fn attend_heads_of<A: Arithmetic>(
    query: Seq<A::Scalar>,
    keys: Seq<Seq<A::Scalar>>,
    values: Seq<Seq<A::Scalar>>,
    heads: int,
    group: int,
    width: int,
    scale: A::Scalar,
) -> Seq<A::Scalar> {
    Seq::new(
        heads as nat,
        |h: int|
            attend_of::<A>(
                rows::row(query, h, width),
                head_rows(keys, (h / group) * width, width),
                head_rows(values, (h / group) * width, width),
                scale,
            ),
    ).flatten()
}

/// Every head of a row rotated by half.
pub open spec fn rope_heads_of<A: Arithmetic>(
    x: Seq<A::Scalar>,
    heads: int,
    width: int,
    cos: Seq<A::Scalar>,
    sin: Seq<A::Scalar>,
) -> Seq<A::Scalar> {
    Seq::new(heads as nat, |h: int| rope_of::<A>(rows::row(x, h, width), cos, sin)).flatten()
}

/// A residual with its branch scaled channel by channel.
pub open spec fn scaled_residual_of<A: Arithmetic>(
    state: Seq<A::Scalar>,
    scale: Seq<A::Scalar>,
    branch: Seq<A::Scalar>,
) -> Seq<A::Scalar> {
    Seq::new(
        state.len(),
        |i: int|
            arith::bin::<A>(
                Binary::Add,
                state[i],
                arith::bin::<A>(Binary::Mul, scale[i], branch[i]),
            ),
    )
}

/// Every head of a query row attending over the cached rows of `cached` heads each.
pub fn attend_heads<A: Arithmetic>(
    query: &[A::Scalar],
    keys: &Vec<Vec<A::Scalar>>,
    values: &Vec<Vec<A::Scalar>>,
    heads: usize,
    group: usize,
    width: usize,
    cached: usize,
    scale: A::Scalar,
) -> (out: Vec<A::Scalar>)
    requires
        query@.len() == heads * width,
        group > 0,
        heads <= cached * group,
        keys@.len() == values@.len(),
        cached * width <= usize::MAX,
        rows::uniform(rows::deep(keys@), cached * width),
        rows::uniform(rows::deep(values@), cached * width),
    ensures
        out@.len() == heads * width,
        arith::pure::<A>() ==> out@ == attend_heads_of::<A>(
            query@,
            rows::deep(keys@),
            rows::deep(values@),
            heads as int,
            group as int,
            width as int,
            scale,
        ),
{
    let mut parts: Vec<Vec<A::Scalar>> = Vec::new();
    for h in 0..heads
        invariant
            query@.len() == heads * width,
            group > 0,
            heads <= cached * group,
            keys@.len() == values@.len(),
            cached * width <= usize::MAX,
            rows::uniform(rows::deep(keys@), cached * width),
            rows::uniform(rows::deep(values@), cached * width),
            parts@.len() == h,
            forall|j: int| 0 <= j < h ==> (#[trigger] parts@[j])@.len() == width,
            arith::pure::<A>() ==> forall|j: int|
                0 <= j < h ==> (#[trigger] parts@[j])@ == attend_of::<A>(
                    rows::row(query@, j, width as int),
                    head_rows(rows::deep(keys@), (j / group as int) * width, width as int),
                    head_rows(rows::deep(values@), (j / group as int) * width, width as int),
                    scale,
                ),
    {
        let shared: usize = h / group;
        proof {
            rows::lemma_row_bounds(h as int, heads as int, width as int);
            vstd::arithmetic::div_mod::lemma_fundamental_div_mod(h as int, group as int);
            assert(shared < cached) by (nonlinear_arith)
                requires
                    h < cached * group,
                    h == group * shared + (h as int) % (group as int),
                    (h as int) % (group as int) >= 0,
                    group > 0,
            ;
            rows::lemma_row_bounds(shared as int, cached as int, width as int);
            assert forall|i: int| 0 <= i < keys@.len() implies shared * width + width <= (
            #[trigger] keys@[i])@.len() by {
                assert(rows::deep(keys@)[i].len() == cached * width);
            }
            assert forall|i: int| 0 <= i < values@.len() implies shared * width + width <= (
            #[trigger] values@[i])@.len() by {
                assert(rows::deep(values@)[i].len() == cached * width);
            }
        }
        parts.push(attend::<A>(row_of(query, h, width), keys, values, shared * width, scale));
    }
    let out = join_rows(&parts);
    proof {
        rows::lemma_flatten_len(rows::deep(parts@), width as int);
        if arith::pure::<A>() {
            assert(rows::deep(parts@) =~= Seq::new(
                heads as nat,
                |h: int|
                    attend_of::<A>(
                        rows::row(query@, h, width as int),
                        head_rows(rows::deep(keys@), (h / group as int) * width, width as int),
                        head_rows(rows::deep(values@), (h / group as int) * width, width as int),
                        scale,
                    ),
            ));
        }
    }
    out
}

/// Every head of a row rotated by half.
pub fn rope_heads<A: Arithmetic>(
    x: &[A::Scalar],
    heads: usize,
    width: usize,
    cos: &[A::Scalar],
    sin: &[A::Scalar],
) -> (out: Vec<A::Scalar>)
    requires
        x@.len() == heads * width,
        cos@.len() == width,
        sin@.len() == width,
        width % 2 == 0,
    ensures
        out@.len() == heads * width,
        arith::pure::<A>() ==> out@ == rope_heads_of::<A>(
            x@,
            heads as int,
            width as int,
            cos@,
            sin@,
        ),
{
    let mut parts: Vec<Vec<A::Scalar>> = Vec::new();
    for h in 0..heads
        invariant
            x@.len() == heads * width,
            cos@.len() == width,
            sin@.len() == width,
            width % 2 == 0,
            parts@.len() == h,
            forall|j: int| 0 <= j < h ==> (#[trigger] parts@[j])@.len() == width,
            arith::pure::<A>() ==> forall|j: int|
                0 <= j < h ==> (#[trigger] parts@[j])@ == rope_of::<A>(
                    rows::row(x@, j, width as int),
                    cos@,
                    sin@,
                ),
    {
        proof {
            rows::lemma_row_bounds(h as int, heads as int, width as int);
        }
        parts.push(rope::<A>(row_of(x, h, width), cos, sin));
    }
    let out = join_rows(&parts);
    proof {
        rows::lemma_flatten_len(rows::deep(parts@), width as int);
        if arith::pure::<A>() {
            assert(rows::deep(parts@) =~= Seq::new(
                heads as nat,
                |h: int| rope_of::<A>(rows::row(x@, h, width as int), cos@, sin@),
            ));
        }
    }
    out
}

/// A residual with its branch scaled channel by channel.
pub fn scaled_residual<A: Arithmetic>(
    state: &[A::Scalar],
    scale: &[A::Scalar],
    branch: &[A::Scalar],
) -> (out: Vec<A::Scalar>)
    requires
        state@.len() == scale@.len(),
        state@.len() == branch@.len(),
    ensures
        out@.len() == state@.len(),
        arith::pure::<A>() ==> out@ == scaled_residual_of::<A>(state@, scale@, branch@),
{
    let mut out: Vec<A::Scalar> = Vec::new();
    for i in 0..state.len()
        invariant
            state@.len() == scale@.len(),
            state@.len() == branch@.len(),
            out@.len() == i,
            arith::pure::<A>() ==> forall|j: int|
                0 <= j < i ==> #[trigger] out@[j] == arith::bin::<A>(
                    Binary::Add,
                    state@[j],
                    arith::bin::<A>(Binary::Mul, scale@[j], branch@[j]),
                ),
    {
        let part = binary::<A>(Binary::Mul, scale[i], branch[i]);
        out.push(binary::<A>(Binary::Add, state[i], part));
    }
    proof {
        if arith::pure::<A>() {
            assert(out@ =~= scaled_residual_of::<A>(state@, scale@, branch@));
        }
    }
    out
}

/// The mean of a row.
pub open spec fn mean_of<A: Arithmetic>(x: Seq<A::Scalar>) -> A::Scalar {
    arith::bin::<A>(
        Binary::Div,
        total::<A>(x, x.len() as int),
        arith::num::<A>(x.len() as usize),
    )
}

/// The squared deviations of a row from its mean.
pub open spec fn deviations_of<A: Arithmetic>(x: Seq<A::Scalar>) -> Seq<A::Scalar> {
    Seq::new(
        x.len(),
        |i: int|
            arith::bin::<A>(
                Binary::Mul,
                arith::bin::<A>(Binary::Sub, x[i], mean_of::<A>(x)),
                arith::bin::<A>(Binary::Sub, x[i], mean_of::<A>(x)),
            ),
    )
}

/// LayerNorm of one row: biased variance, epsilon under the root.
pub open spec fn layer_norm_of<A: Arithmetic>(
    x: Seq<A::Scalar>,
    weight: Seq<A::Scalar>,
    bias: Seq<A::Scalar>,
    eps: A::Scalar,
) -> Seq<A::Scalar> {
    let scale = arith::un::<A>(
        Unary::Recip,
        arith::un::<A>(
            Unary::Sqrt,
            arith::bin::<A>(Binary::Add, mean_of::<A>(deviations_of::<A>(x)), eps),
        ),
    );
    Seq::new(
        x.len(),
        |i: int|
            arith::bin::<A>(
                Binary::Add,
                arith::bin::<A>(
                    Binary::Mul,
                    arith::bin::<A>(
                        Binary::Mul,
                        arith::bin::<A>(Binary::Sub, x[i], mean_of::<A>(x)),
                        scale,
                    ),
                    weight[i],
                ),
                bias[i],
            ),
    )
}

/// The exact GELU: `0.5 x (1 + erf(x / sqrt 2))`, the root taken into a factor.
pub open spec fn gelu_of<A: Arithmetic>(x: A::Scalar) -> A::Scalar {
    arith::bin::<A>(
        Binary::Mul,
        arith::bin::<A>(Binary::Mul, arith::cst::<A>(Constant::Half), x),
        arith::bin::<A>(
            Binary::Add,
            arith::cst::<A>(Constant::One),
            arith::un::<A>(
                Unary::Erf,
                arith::bin::<A>(Binary::Mul, x, arith::cst::<A>(Constant::FracOneSqrtTwo)),
            ),
        ),
    )
}

/// The exact GELU at every place.
pub open spec fn gelu_row<A: Arithmetic>(x: Seq<A::Scalar>) -> Seq<A::Scalar> {
    Seq::new(x.len(), |i: int| gelu_of::<A>(x[i]))
}

/// The mean of a row.
pub fn mean<A: Arithmetic>(x: &[A::Scalar]) -> (r: A::Scalar)
    ensures
        arith::pure::<A>() ==> r == mean_of::<A>(x@),
{
    proof {
        assert(x.len() == x@.len());
    }
    binary::<A>(Binary::Div, sum_of::<A>(x), count::<A>(x.len()))
}

/// LayerNorm of one row.
pub fn layer_norm<A: Arithmetic>(
    x: &[A::Scalar],
    weight: &[A::Scalar],
    bias: &[A::Scalar],
    eps: A::Scalar,
) -> (out: Vec<A::Scalar>)
    requires
        x@.len() == weight@.len(),
        x@.len() == bias@.len(),
    ensures
        out@.len() == x@.len(),
        arith::pure::<A>() ==> out@ == layer_norm_of::<A>(x@, weight@, bias@, eps),
{
    let middle = mean::<A>(x);
    let mut squares: Vec<A::Scalar> = Vec::new();
    for i in 0..x.len()
        invariant
            arith::pure::<A>() ==> middle == mean_of::<A>(x@),
            squares@.len() == i,
            arith::pure::<A>() ==> forall|j: int|
                0 <= j < i ==> #[trigger] squares@[j] == deviations_of::<A>(x@)[j],
    {
        let centered = binary::<A>(Binary::Sub, x[i], middle);
        squares.push(binary::<A>(Binary::Mul, centered, centered));
    }
    proof {
        if arith::pure::<A>() {
            assert(squares@ =~= deviations_of::<A>(x@));
        }
    }
    let variance = mean::<A>(squares.as_slice());
    let scale = unary::<A>(
        Unary::Recip,
        unary::<A>(Unary::Sqrt, binary::<A>(Binary::Add, variance, eps)),
    );
    let mut out: Vec<A::Scalar> = Vec::new();
    for i in 0..x.len()
        invariant
            x@.len() == weight@.len(),
            x@.len() == bias@.len(),
            arith::pure::<A>() ==> middle == mean_of::<A>(x@),
            arith::pure::<A>() ==> scale == arith::un::<A>(
                Unary::Recip,
                arith::un::<A>(
                    Unary::Sqrt,
                    arith::bin::<A>(Binary::Add, mean_of::<A>(deviations_of::<A>(x@)), eps),
                ),
            ),
            out@.len() == i,
            arith::pure::<A>() ==> forall|j: int|
                0 <= j < i ==> #[trigger] out@[j] == layer_norm_of::<A>(x@, weight@, bias@, eps)[j],
    {
        let centered = binary::<A>(Binary::Sub, x[i], middle);
        let scaled = binary::<A>(Binary::Mul, centered, scale);
        let weighted = binary::<A>(Binary::Mul, scaled, weight[i]);
        out.push(binary::<A>(Binary::Add, weighted, bias[i]));
    }
    proof {
        if arith::pure::<A>() {
            assert(out@ =~= layer_norm_of::<A>(x@, weight@, bias@, eps));
        }
    }
    out
}

/// The exact GELU.
pub fn gelu<A: Arithmetic>(x: A::Scalar) -> (r: A::Scalar)
    ensures
        arith::pure::<A>() ==> r == gelu_of::<A>(x),
{
    let half = binary::<A>(Binary::Mul, constant::<A>(Constant::Half), x);
    let inside = binary::<A>(Binary::Mul, x, constant::<A>(Constant::FracOneSqrtTwo));
    let gate = binary::<A>(
        Binary::Add,
        constant::<A>(Constant::One),
        unary::<A>(Unary::Erf, inside),
    );
    binary::<A>(Binary::Mul, half, gate)
}

/// The exact GELU at every place.
pub fn gelu_each<A: Arithmetic>(x: &[A::Scalar]) -> (out: Vec<A::Scalar>)
    ensures
        out@.len() == x@.len(),
        arith::pure::<A>() ==> out@ == gelu_row::<A>(x@),
{
    let mut out: Vec<A::Scalar> = Vec::new();
    for i in 0..x.len()
        invariant
            out@.len() == i,
            arith::pure::<A>() ==> forall|j: int|
                0 <= j < i ==> #[trigger] out@[j] == gelu_of::<A>(x@[j]),
    {
        out.push(gelu::<A>(x[i]));
    }
    proof {
        if arith::pure::<A>() {
            assert(out@ =~= gelu_row::<A>(x@));
        }
    }
    out
}

/// The first sample from `from` on that is not finite.
pub open spec fn first_unusable<A: Arithmetic>(pcm: Seq<A::Scalar>, from: int) -> Option<int>
    decreases pcm.len() - from,
{
    if from >= pcm.len() {
        None
    } else if !arith::chk::<A>(Check::Finite, pcm[from]) {
        Some(from)
    } else {
        first_unusable::<A>(pcm, from + 1)
    }
}

/// The first sample that is not finite.
pub fn find_unusable<A: Arithmetic>(pcm: &[A::Scalar]) -> (index: Option<usize>)
    ensures
        index matches Some(i) ==> i < pcm@.len(),
        arith::pure::<A>() ==> first_unusable::<A>(pcm@, 0) == (match index {
            Some(i) => Some(i as int),
            None => None,
        }),
{
    for i in 0..pcm.len()
        invariant
            arith::pure::<A>() ==> first_unusable::<A>(pcm@, 0) == first_unusable::<A>(
                pcm@,
                i as int,
            ),
    {
        if !check::<A>(Check::Finite, pcm[i]) {
            return Some(i);
        }
    }
    None
}

} // verus!
