//! Eight-bit weight matrices.
//!
//! How a matrix is packed, and how one row of activations meets one row of weights, belongs to
//! the engine. The library keeps the shape beside the engine's data, so that every projection
//! it makes is inside the matrix.
use vstd::prelude::*;
use crate::arith::Arithmetic;

verus! {

/// The primitive operations on eight-bit matrices.
pub trait Quantized: Arithmetic {
    /// One packed matrix.
    type Matrix;

    /// Which of its kernels the engine runs.
    type Mode: Copy;

    /// Packs row-major `[n, k]` weights, one scale per output row.
    fn quantize(weights: &[Self::Scalar], n: usize, k: usize) -> Self::Matrix;

    /// Packs rows that are already eight-bit, with one scale per row.
    fn assemble(values: &[i8], scales: &[Self::Scalar], n: usize, k: usize) -> Self::Matrix;

    /// The rows of one matrix over the rows of another, scales unchanged.
    fn stack(upper: &Self::Matrix, lower: &Self::Matrix) -> Self::Matrix;

    /// One output of a row of activations: the row's own scale, an integer sum, one result.
    fn project(
        mode: Self::Mode,
        x: &[Self::Scalar],
        matrix: &Self::Matrix,
        output: usize,
    ) -> Self::Scalar;
}

/// That `r` is a matrix the engine may pack weights into.
pub open spec fn may_quantize<Q: Quantized>(
    weights: Seq<Q::Scalar>,
    n: usize,
    k: usize,
    r: Q::Matrix,
) -> bool {
    exists|w: &[Q::Scalar]| w@ == weights && #[trigger] call_ensures(Q::quantize, (w, n, k), r)
}

/// That `r` is a matrix the engine may assemble from eight-bit rows.
pub open spec fn may_assemble<Q: Quantized>(
    values: Seq<i8>,
    scales: Seq<Q::Scalar>,
    n: usize,
    k: usize,
    r: Q::Matrix,
) -> bool {
    exists|v: &[i8], s: &[Q::Scalar]|
        v@ == values && s@ == scales && #[trigger] call_ensures(Q::assemble, (v, s, n, k), r)
}

/// That `r` is a matrix the engine may stack two matrices into.
pub open spec fn may_stack<Q: Quantized>(upper: Q::Matrix, lower: Q::Matrix, r: Q::Matrix) -> bool {
    call_ensures(Q::stack, (&upper, &lower), r)
}

/// That `r` is a value the engine may return for one output.
pub open spec fn may_project<Q: Quantized>(
    mode: Q::Mode,
    x: Seq<Q::Scalar>,
    matrix: Q::Matrix,
    output: usize,
    r: Q::Scalar,
) -> bool {
    exists|xs: &[Q::Scalar]|
        xs@ == x && #[trigger] call_ensures(Q::project, (mode, xs, &matrix, output), r)
}

/// That the engine's eight-bit kernels are functions of their arguments.
#[verifier::opaque]
pub open spec fn pure_quant<Q: Quantized>() -> bool {
    &&& forall|w: Seq<Q::Scalar>, n: usize, k: usize, r: Q::Matrix, s: Q::Matrix|
        #![trigger may_quantize::<Q>(w, n, k, r), may_quantize::<Q>(w, n, k, s)]
        may_quantize::<Q>(w, n, k, r) && may_quantize::<Q>(w, n, k, s) ==> r == s
    &&& forall|v: Seq<i8>, c: Seq<Q::Scalar>, n: usize, k: usize, r: Q::Matrix, s: Q::Matrix|
        #![trigger may_assemble::<Q>(v, c, n, k, r), may_assemble::<Q>(v, c, n, k, s)]
        may_assemble::<Q>(v, c, n, k, r) && may_assemble::<Q>(v, c, n, k, s) ==> r == s
    &&& forall|u: Q::Matrix, l: Q::Matrix, r: Q::Matrix, s: Q::Matrix|
        #![trigger may_stack::<Q>(u, l, r), may_stack::<Q>(u, l, s)]
        may_stack::<Q>(u, l, r) && may_stack::<Q>(u, l, s) ==> r == s
    &&& forall|m: Q::Mode, x: Seq<Q::Scalar>, w: Q::Matrix, o: usize, r: Q::Scalar, s: Q::Scalar|
        #![trigger may_project::<Q>(m, x, w, o, r), may_project::<Q>(m, x, w, o, s)]
        may_project::<Q>(m, x, w, o, r) && may_project::<Q>(m, x, w, o, s) ==> r == s
}

/// The matrix the engine packs weights into.
#[verifier::opaque]
pub open spec fn packed<Q: Quantized>(weights: Seq<Q::Scalar>, n: usize, k: usize) -> Q::Matrix {
    choose|r: Q::Matrix| may_quantize::<Q>(weights, n, k, r)
}

/// The matrix the engine assembles from eight-bit rows.
#[verifier::opaque]
pub open spec fn assembled<Q: Quantized>(
    values: Seq<i8>,
    scales: Seq<Q::Scalar>,
    n: usize,
    k: usize,
) -> Q::Matrix {
    choose|r: Q::Matrix| may_assemble::<Q>(values, scales, n, k, r)
}

/// The matrix the engine stacks two matrices into.
#[verifier::opaque]
pub open spec fn stacked<Q: Quantized>(upper: Q::Matrix, lower: Q::Matrix) -> Q::Matrix {
    choose|r: Q::Matrix| may_stack::<Q>(upper, lower, r)
}

/// One output of a row of activations.
#[verifier::opaque]
pub open spec fn proj<Q: Quantized>(
    mode: Q::Mode,
    x: Seq<Q::Scalar>,
    matrix: Q::Matrix,
    output: usize,
) -> Q::Scalar {
    choose|r: Q::Scalar| may_project::<Q>(mode, x, matrix, output, r)
}

/// Outputs `from..from + n` of a row of activations.
pub open spec fn projected<Q: Quantized>(
    mode: Q::Mode,
    x: Seq<Q::Scalar>,
    matrix: QuantizedMatrix<Q>,
    from: int,
    n: int,
) -> Seq<Q::Scalar> {
    Seq::new(n as nat, |o: int| proj::<Q>(mode, x, matrix.data(), (from + o) as usize))
}

/// A packed matrix and its shape.
pub struct QuantizedMatrix<Q: Quantized> {
    n: usize,
    k: usize,
    data: Q::Matrix,
}

impl<Q: Quantized> QuantizedMatrix<Q> {
    /// Output rows.
    pub closed spec fn outputs(&self) -> int {
        self.n as int
    }

    /// Width of the activations it meets.
    pub closed spec fn inputs(&self) -> int {
        self.k as int
    }

    /// What the engine packed.
    pub closed spec fn data(&self) -> Q::Matrix {
        self.data
    }

    /// Packs row-major `[n, k]` weights.
    pub fn quantize(weights: &[Q::Scalar], n: usize, k: usize) -> (matrix: Self)
        requires
            weights@.len() == n * k,
        ensures
            matrix.outputs() == n,
            matrix.inputs() == k,
            pure_quant::<Q>() ==> matrix.data() == packed::<Q>(weights@, n, k),
    {
        reveal(pure_quant);
        reveal(packed);
        let data = Q::quantize(weights, n, k);
        assert(call_ensures(Q::quantize, (weights, n, k), data));
        assert(may_quantize::<Q>(weights@, n, k, data));
        QuantizedMatrix { n, k, data }
    }

    /// Assembles rows that are already eight-bit.
    pub fn from_parts(values: &[i8], scales: &[Q::Scalar], n: usize, k: usize) -> (matrix: Self)
        requires
            values@.len() == n * k,
            scales@.len() == n,
        ensures
            matrix.outputs() == n,
            matrix.inputs() == k,
            pure_quant::<Q>() ==> matrix.data() == assembled::<Q>(values@, scales@, n, k),
    {
        reveal(pure_quant);
        reveal(assembled);
        let data = Q::assemble(values, scales, n, k);
        assert(call_ensures(Q::assemble, (values, scales, n, k), data));
        assert(may_assemble::<Q>(values@, scales@, n, k, data));
        QuantizedMatrix { n, k, data }
    }

    /// The rows of one matrix over the rows of another.
    pub fn concat_rows(&self, lower: &Self) -> (matrix: Self)
        requires
            self.inputs() == lower.inputs(),
            self.outputs() + lower.outputs() <= usize::MAX,
        ensures
            matrix.outputs() == self.outputs() + lower.outputs(),
            matrix.inputs() == self.inputs(),
            pure_quant::<Q>() ==> matrix.data() == stacked::<Q>(self.data(), lower.data()),
    {
        reveal(pure_quant);
        reveal(stacked);
        let data = Q::stack(&self.data, &lower.data);
        assert(may_stack::<Q>(self.data, lower.data, data));
        QuantizedMatrix { n: self.n + lower.n, k: self.k, data }
    }

    /// Output rows.
    pub fn n(&self) -> (n: usize)
        ensures
            n == self.outputs(),
    {
        self.n
    }

    /// Width of the activations it meets.
    pub fn k(&self) -> (k: usize)
        ensures
            k == self.inputs(),
    {
        self.k
    }

    /// Outputs `from..from + n` of one row of activations.
    pub fn project(&self, mode: Q::Mode, x: &[Q::Scalar], from: usize, n: usize) -> (out: Vec<
        Q::Scalar,
    >)
        requires
            x@.len() == self.inputs(),
            from + n <= self.outputs(),
        ensures
            out@.len() == n,
            pure_quant::<Q>() ==> out@ == projected::<Q>(mode, x@, *self, from as int, n as int),
    {
        reveal(pure_quant);
        reveal(proj);
        let mut out: Vec<Q::Scalar> = Vec::new();
        for o in 0..n
            invariant
                from + n <= self.n,
                out@.len() == o,
                forall|j: int|
                    0 <= j < o ==> may_project::<Q>(
                        mode,
                        x@,
                        self.data,
                        (from + j) as usize,
                        #[trigger] out@[j],
                    ),
        {
            let value = Q::project(mode, x, &self.data, from + o);
            assert(call_ensures(Q::project, (mode, x, &self.data, (from + o) as usize), value));
            assert(may_project::<Q>(mode, x@, self.data, (from + o) as usize, value));
            out.push(value);
        }
        proof {
            if pure_quant::<Q>() {
                let want = projected::<Q>(mode, x@, *self, from as int, n as int);
                assert forall|j: int| 0 <= j < n implies #[trigger] out@[j] == want[j] by {
                    assert(may_project::<Q>(
                        mode,
                        x@,
                        self.data,
                        (from + j) as usize,
                        out@[j],
                    ));
                }
                assert(out@ =~= want);
            }
        }
        out
    }
}

} // verus!
