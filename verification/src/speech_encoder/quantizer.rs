//! Residual vector quantization: the nearest entry, level by level.
use vstd::prelude::*;
use crate::arith;
use crate::arith::{
    binary, constant, relation, Arithmetic, Binary, Constant, Reduction, Relation,
};
use crate::codec::quantizer::MaterializedCodebook;
use crate::kernels;
use crate::kernels::{dot_product, linear, zip_with};
use crate::ranking;
use crate::rows;
use crate::rows::row_of;
use crate::speech_encoder::{CODEBOOK_SIZE, HIDDEN, VQ_DIM};

verus! {

/// One branch: a projection and a chain of codebooks with the squared lengths of their entries.
pub struct RvqBranch<A: Arithmetic> {
    /// `[VQ_DIM, HIDDEN]`.
    pub input_proj: Vec<A::Scalar>,
    /// The codebooks, in order.
    pub codebooks: Vec<MaterializedCodebook<A>>,
    /// Squared lengths of every codebook's entries.
    pub codebook_norms: Vec<Vec<A::Scalar>>,
}

/// The squared length of a vector.
pub open spec fn square_of<A: Arithmetic>(x: Seq<A::Scalar>) -> A::Scalar {
    kernels::dot::<A>(x, x, x.len() as int)
}

/// The squared distance between a vector and an entry, from their squared lengths and their
/// product; never below zero.
pub open spec fn distance_of<A: Arithmetic>(
    square: A::Scalar,
    product: A::Scalar,
    norm: A::Scalar,
) -> A::Scalar {
    arith::bin::<A>(
        Binary::Max,
        arith::bin::<A>(
            Binary::Add,
            arith::bin::<A>(
                Binary::Sub,
                square,
                arith::bin::<A>(Binary::Mul, arith::cst::<A>(Constant::Two), product),
            ),
            norm,
        ),
        arith::cst::<A>(Constant::Zero),
    )
}

/// The distances from one vector to every entry.
pub open spec fn distances_of<A: Arithmetic>(
    x: Seq<A::Scalar>,
    entries: Seq<A::Scalar>,
    norms: Seq<A::Scalar>,
) -> Seq<A::Scalar> {
    let products = kernels::linear_of::<A>(
        Reduction::SeededConvolution,
        x,
        entries,
        None,
        CODEBOOK_SIZE as int,
    );
    Seq::new(
        CODEBOOK_SIZE as nat,
        |e: int| distance_of::<A>(square_of::<A>(x), products[e], norms[e]),
    )
}

/// The smallest of the first `n` distances, from positive infinity.
pub open spec fn least_of<A: Arithmetic>(d: Seq<A::Scalar>, n: int) -> A::Scalar
    decreases n,
{
    if n <= 0 {
        arith::cst::<A>(Constant::Infinity)
    } else if arith::rel::<A>(Relation::Less, d[n - 1], least_of::<A>(d, n - 1)) {
        d[n - 1]
    } else {
        least_of::<A>(d, n - 1)
    }
}

/// The first entry that is nearer than every entry before it and no farther than any behind it,
/// among the first `n`; zero where none is nearer than infinity.
pub open spec fn nearest_of<A: Arithmetic>(d: Seq<A::Scalar>, n: int) -> int
    decreases n,
{
    if n <= 0 {
        0
    } else if arith::rel::<A>(Relation::Less, d[n - 1], least_of::<A>(d, n - 1)) {
        n - 1
    } else {
        nearest_of::<A>(d, n - 1)
    }
}

/// Where every distance is below infinity and distances are ordered, the entry taken is the
/// first of the nearest.
pub proof fn law_nearest_is_the_first_of_the_nearest<A: Arithmetic>(d: Seq<A::Scalar>, n: int)
    requires
        0 < n <= d.len(),
        forall|i: int|
            0 <= i < d.len() ==> #[trigger] arith::rel::<A>(
                Relation::Less,
                d[i],
                arith::cst::<A>(Constant::Infinity),
            ),
        ranking::weakly_ordered::<A>(Relation::Less, d),
    ensures
        0 <= nearest_of::<A>(d, n) < n,
        least_of::<A>(d, n) == d[nearest_of::<A>(d, n)],
        forall|i: int|
            0 <= i < n ==> !#[trigger] arith::rel::<A>(
                Relation::Less,
                d[i],
                d[nearest_of::<A>(d, n)],
            ),
        forall|i: int|
            0 <= i < nearest_of::<A>(d, n) ==> #[trigger] arith::rel::<A>(
                Relation::Less,
                d[nearest_of::<A>(d, n)],
                d[i],
            ),
    decreases n,
{
    let last = n - 1;
    assert(arith::rel::<A>(Relation::Less, d[last], arith::cst::<A>(Constant::Infinity)));
    assert(!arith::rel::<A>(Relation::Less, d[last], d[last]));
    if n > 1 {
        law_nearest_is_the_first_of_the_nearest::<A>(d, n - 1);
        let best = nearest_of::<A>(d, n - 1);
        if arith::rel::<A>(Relation::Less, d[last], d[best]) {
            assert forall|i: int| 0 <= i < last implies #[trigger] arith::rel::<A>(
                Relation::Less,
                d[last],
                d[i],
            ) by {
                assert(!arith::rel::<A>(Relation::Less, d[i], d[best]));
            }
            assert forall|i: int| 0 <= i < n implies !#[trigger] arith::rel::<A>(
                Relation::Less,
                d[i],
                d[last],
            ) by {
                if i < last && arith::rel::<A>(Relation::Less, d[i], d[last]) {
                    assert(arith::rel::<A>(Relation::Less, d[last], d[i]));
                    assert(!arith::rel::<A>(Relation::Less, d[i], d[i]));
                }
            }
        }
    } else {
        assert(least_of::<A>(d, 0) == arith::cst::<A>(Constant::Infinity));
    }
}

impl<A: Arithmetic> RvqBranch<A> {
    /// That the projection and the codebooks have their shapes.
    pub open spec fn fits(&self) -> bool {
        &&& self.input_proj@.len() == VQ_DIM * HIDDEN
        &&& self.codebook_norms@.len() == self.codebooks@.len()
        &&& forall|l: int|
            0 <= l < self.codebooks@.len() ==> {
                &&& (#[trigger] self.codebooks@[l]).wf()
                &&& self.codebooks@[l].size() == CODEBOOK_SIZE
                &&& self.codebooks@[l].width() == VQ_DIM
                &&& self.codebook_norms@[l]@.len() == CODEBOOK_SIZE
            }
    }

    /// A row at the quantizer's width.
    pub open spec fn projected(&self, x: Seq<A::Scalar>) -> Seq<A::Scalar> {
        kernels::linear_of::<A>(
            Reduction::SeededConvolution,
            x,
            self.input_proj@,
            None,
            VQ_DIM as int,
        )
    }

    /// What the first `l` levels leave of a row.
    pub open spec fn residual(&self, x: Seq<A::Scalar>, l: int) -> Seq<A::Scalar>
        decreases l,
    {
        if l <= 0 {
            self.projected(x)
        } else {
            let before = self.residual(x, l - 1);
            kernels::zip::<A>(
                Binary::Sub,
                before,
                self.codebooks@[l - 1].entry(self.code_for(before, l - 1)),
            )
        }
    }

    /// The code that level `l` gives a residual.
    pub open spec fn code_for(&self, residual: Seq<A::Scalar>, l: int) -> int {
        nearest_of::<A>(
            distances_of::<A>(residual, self.codebooks@[l].table(), self.codebook_norms@[l]@),
            CODEBOOK_SIZE as int,
        )
    }

    /// The code of level `l`.
    pub open spec fn code(&self, x: Seq<A::Scalar>, l: int) -> int {
        self.code_for(self.residual(x, l), l)
    }

    /// The nearest entry of one codebook.
    fn nearest(&self, residual: &[A::Scalar], level: usize) -> (code: usize)
        requires
            self.fits(),
            residual@.len() == VQ_DIM,
            level < self.codebooks@.len(),
        ensures
            code < CODEBOOK_SIZE,
            arith::pure::<A>() ==> code == self.code_for(residual@, level as int),
    {
        let book = &self.codebooks[level];
        let norms = self.codebook_norms[level].as_slice();
        proof {
            assert(self.codebooks@[level as int].wf());
        }
        let products = linear::<A>(
            Reduction::SeededConvolution,
            residual,
            book.entries(),
            None,
            CODEBOOK_SIZE,
        );
        let square = dot_product::<A>(residual, residual);
        let two = constant::<A>(Constant::Two);
        let zero = constant::<A>(Constant::Zero);
        let mut least = constant::<A>(Constant::Infinity);
        let mut best: usize = 0;
        let ghost d = distances_of::<A>(residual@, book.table(), norms@);
        for e in 0..CODEBOOK_SIZE
            invariant
                products@.len() == CODEBOOK_SIZE,
                norms@.len() == CODEBOOK_SIZE,
                d == distances_of::<A>(residual@, book.table(), norms@),
                arith::pure::<A>() ==> products@ == kernels::linear_of::<A>(
                    Reduction::SeededConvolution,
                    residual@,
                    book.table(),
                    None,
                    CODEBOOK_SIZE as int,
                ),
                arith::pure::<A>() ==> square == square_of::<A>(residual@),
                arith::pure::<A>() ==> two == arith::cst::<A>(Constant::Two),
                arith::pure::<A>() ==> zero == arith::cst::<A>(Constant::Zero),
                best < CODEBOOK_SIZE,
                arith::pure::<A>() ==> best == nearest_of::<A>(d, e as int),
                arith::pure::<A>() ==> least == least_of::<A>(d, e as int),
        {
            let twice = binary::<A>(Binary::Mul, two, products[e]);
            let apart = binary::<A>(Binary::Sub, square, twice);
            let sum = binary::<A>(Binary::Add, apart, norms[e]);
            let distance = binary::<A>(Binary::Max, sum, zero);
            proof {
                if arith::pure::<A>() {
                    assert(distance == d[e as int]);
                }
            }
            if relation::<A>(Relation::Less, distance, least) {
                least = distance;
                best = e;
            }
        }
        best
    }

    /// Encodes some frames: level `l` of frame `t` is written at `t * group_stride + first_group
    /// + l`, and nothing else is written.
    pub fn encode(
        &self,
        embeddings: &[A::Scalar],
        frames: usize,
        codes: &mut [u32],
        group_stride: usize,
        first_group: usize,
    )
        requires
            self.fits(),
            embeddings@.len() == frames * HIDDEN,
            old(codes)@.len() == frames * group_stride,
            first_group + self.codebooks@.len() <= group_stride,
        ensures
            final(codes)@.len() == old(codes)@.len(),
            forall|t: int, g: int|
                #![trigger rows::row(final(codes)@, t, group_stride as int)[g]]
                0 <= t < frames && 0 <= g < group_stride && !(first_group <= g < first_group
                    + self.codebooks@.len()) ==> rows::row(
                    final(codes)@,
                    t,
                    group_stride as int,
                )[g] == rows::row(old(codes)@, t, group_stride as int)[g],
            forall|t: int, l: int|
                #![trigger rows::row(final(codes)@, t, group_stride as int)[first_group + l]]
                0 <= t < frames && 0 <= l < self.codebooks@.len() ==> {
                    let code = rows::row(final(codes)@, t, group_stride as int)[first_group + l];
                    &&& code < CODEBOOK_SIZE
                    &&& arith::pure::<A>() ==> code == self.code(
                        rows::row(embeddings@, t, HIDDEN as int),
                        l,
                    )
                },
    {
        let levels: usize = self.codebooks.len();
        let total: usize = codes.len();
        let ghost start = codes@;
        for t in 0..frames
            invariant
                self.fits(),
                levels == self.codebooks@.len(),
                embeddings@.len() == frames * HIDDEN,
                total == frames * group_stride,
                codes@.len() == total,
                start.len() == total,
                first_group + levels <= group_stride,
                forall|i: int| t * group_stride <= i < total ==> #[trigger] codes@[i] == start[i],
                forall|j: int, g: int|
                    #![trigger rows::row(codes@, j, group_stride as int)[g]]
                    0 <= j < t && 0 <= g < group_stride && !(first_group <= g < first_group
                        + levels) ==> rows::row(codes@, j, group_stride as int)[g] == rows::row(
                        start,
                        j,
                        group_stride as int,
                    )[g],
                forall|j: int, l: int|
                    #![trigger rows::row(codes@, j, group_stride as int)[first_group + l]]
                    0 <= j < t && 0 <= l < levels ==> {
                        let code = rows::row(codes@, j, group_stride as int)[first_group + l];
                        &&& code < CODEBOOK_SIZE
                        &&& arith::pure::<A>() ==> code == self.code(
                            rows::row(embeddings@, j, HIDDEN as int),
                            l,
                        )
                    },
        {
            proof {
                rows::lemma_row_bounds(t as int, frames as int, HIDDEN as int);
                rows::lemma_row_bounds(t as int, frames as int, group_stride as int);
            }
            let x = row_of(embeddings, t, HIDDEN);
            let base: usize = t * group_stride;
            let ghost before = codes@;
            let mut residual = linear::<A>(
                Reduction::SeededConvolution,
                x,
                self.input_proj.as_slice(),
                None,
                VQ_DIM,
            );
            for level in 0..levels
                invariant
                    self.fits(),
                    levels == self.codebooks@.len(),
                    x@.len() == HIDDEN,
                    base == t * group_stride,
                    base + group_stride <= total,
                    total <= usize::MAX,
                    codes@.len() == total,
                    before.len() == total,
                    first_group + levels <= group_stride,
                    residual@.len() == VQ_DIM,
                    arith::pure::<A>() ==> residual@ == self.residual(x@, level as int),
                    forall|i: int|
                        0 <= i < total && !(base + first_group <= i < base + first_group + level)
                            ==> #[trigger] codes@[i] == before[i],
                    forall|l: int|
                        0 <= l < level ==> {
                            &&& #[trigger] codes@[base + first_group + l] < CODEBOOK_SIZE
                            &&& arith::pure::<A>() ==> codes@[base + first_group + l] == self.code(
                                x@,
                                l,
                            )
                        },
            {
                let code: usize = self.nearest(residual.as_slice(), level);
                let ghost earlier = codes@;
                codes[base + first_group + level] = code as u32;
                proof {
                    assert(self.codebooks@[level as int].wf());
                    rows::lemma_row_bounds(code as int, CODEBOOK_SIZE as int, VQ_DIM as int);
                    assert forall|l: int| 0 <= l < level implies #[trigger] codes@[base
                        + first_group + l] == earlier[base + first_group + l] by {}
                }
                let entry = row_of(self.codebooks[level].entries(), code, VQ_DIM);
                residual = zip_with::<A>(Binary::Sub, residual.as_slice(), entry);
            }
            proof {
                let w = group_stride as int;
                assert forall|j: int, g: int|
                    #![trigger rows::row(codes@, j, w)[g]]
                    0 <= j < t && 0 <= g < w implies rows::row(codes@, j, w)[g] == rows::row(
                    before,
                    j,
                    w,
                )[g] by {
                    rows::lemma_row_bounds(j, t as int, w);
                }
                assert forall|j: int, g: int|
                    #![trigger rows::row(codes@, j, w)[g]]
                    0 <= j < t + 1 && 0 <= g < w && !(first_group <= g < first_group
                        + levels) implies rows::row(codes@, j, w)[g] == rows::row(start, j, w)[g] by {
                    if j < t {
                        assert(rows::row(codes@, j, w)[g] == rows::row(before, j, w)[g]);
                    } else {
                        assert(codes@[base + g] == before[base + g]);
                    }
                }
                assert forall|j: int, l: int|
                    #![trigger rows::row(codes@, j, w)[first_group + l]]
                    0 <= j < t + 1 && 0 <= l < levels implies {
                    let code = rows::row(codes@, j, w)[first_group + l];
                    &&& code < CODEBOOK_SIZE
                    &&& arith::pure::<A>() ==> code == self.code(
                        rows::row(embeddings@, j, HIDDEN as int),
                        l,
                    )
                } by {
                    if j < t {
                        assert(rows::row(codes@, j, w)[first_group + l] == rows::row(
                            before,
                            j,
                            w,
                        )[first_group + l]);
                    } else {
                        assert(codes@[base + first_group + l] < CODEBOOK_SIZE);
                    }
                }
                assert forall|i: int| (t + 1) * group_stride <= i < total implies #[trigger] codes@[i]
                    == start[i] by {
                    assert((t + 1) * group_stride == base + group_stride) by (nonlinear_arith)
                        requires
                            base == t * group_stride,
                    ;
                    assert(codes@[i] == before[i]);
                }
            }
        }
    }
}

} // verus!
