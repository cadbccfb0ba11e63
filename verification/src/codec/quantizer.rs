//! Split residual vector quantization: from code ids to codec latents.
use vstd::prelude::*;
use crate::arith;
use crate::arith::{binary, check, constant, Arithmetic, Binary, Check, Constant, Reduction};
use crate::codec::{CodecConfig, CodecError};
use crate::kernels;
use crate::kernels::{linear, zip_with};
use crate::rows;
use crate::rows::{fill, join_rows, row_of, store};

verus! {

/// Whether `a * b` is exactly `len`.
pub fn is_product(a: usize, b: usize, len: usize) -> (r: bool)
    ensures
        r == (a * b == len),
{
    match a.checked_mul(b) {
        Some(product) => product == len,
        None => false,
    }
}

/// One row of a materialised codebook: the stored sum over the floored usage.
pub open spec fn entry_of<A: Arithmetic>(
    embedding_sum: Seq<A::Scalar>,
    cluster_usage: Seq<A::Scalar>,
    dim: int,
    r: int,
) -> Seq<A::Scalar> {
    Seq::new(
        dim as nat,
        |i: int|
            arith::bin::<A>(
                Binary::Div,
                rows::row(embedding_sum, r, dim)[i],
                arith::bin::<A>(
                    Binary::Max,
                    cluster_usage[r],
                    arith::cst::<A>(Constant::CodebookUsageEpsilon),
                ),
            ),
    )
}

/// A lookup-ready codebook.
///
/// Checkpoints store sums and usage counts. Dividing once, with the count floored, keeps the
/// decode loop free of a division per code.
pub struct MaterializedCodebook<A: Arithmetic> {
    entries: Vec<A::Scalar>,
    rows: usize,
    dim: usize,
}

impl<A: Arithmetic> MaterializedCodebook<A> {
    /// The `[rows, dim]` table.
    pub closed spec fn table(&self) -> Seq<A::Scalar> {
        self.entries@
    }

    /// Number of entries.
    pub closed spec fn size(&self) -> int {
        self.rows as int
    }

    /// Width of one entry.
    pub closed spec fn width(&self) -> int {
        self.dim as int
    }

    /// One entry.
    pub open spec fn entry(&self, code: int) -> Seq<A::Scalar> {
        rows::row(self.table(), code, self.width())
    }

    /// The table has `size` entries of `width` values.
    pub open spec fn wf(&self) -> bool {
        &&& 0 <= self.size() <= usize::MAX
        &&& 0 <= self.width() <= usize::MAX
        &&& self.table().len() == self.size() * self.width()
    }

    /// Materialises `embedding_sum / max(cluster_usage, epsilon)` row by row.
    pub fn from_unnormalized(
        embedding_sum: &[A::Scalar],
        cluster_usage: &[A::Scalar],
        rows: usize,
        dim: usize,
    ) -> (result: Result<Self, CodecError>)
        ensures
            (embedding_sum@.len() != rows * dim || cluster_usage@.len() != rows) <==> result
                == Err::<Self, CodecError>(CodecError::CodebookShape),
            match result {
                Ok(book) => {
                    &&& book.wf()
                    &&& book.size() == rows
                    &&& book.width() == dim
                    &&& arith::pure::<A>() ==> forall|r: int|
                        0 <= r < rows ==> {
                            &&& arith::chk::<A>(Check::Finite, #[trigger] cluster_usage@[r])
                            &&& book.entry(r) == entry_of::<A>(
                                embedding_sum@,
                                cluster_usage@,
                                dim as int,
                                r,
                            )
                        }
                },
                Err(CodecError::CodebookShape) => true,
                Err(CodecError::NonFiniteClusterUsage { row }) => {
                    &&& row < rows
                    &&& arith::pure::<A>() ==> !arith::chk::<A>(
                        Check::Finite,
                        cluster_usage@[row as int],
                    ) && forall|r: int|
                        0 <= r < row ==> arith::chk::<A>(
                            Check::Finite,
                            #[trigger] cluster_usage@[r],
                        )
                },
                Err(_) => false,
            },
    {
        if !is_product(rows, dim, embedding_sum.len()) || cluster_usage.len() != rows {
            return Err(CodecError::CodebookShape);
        }
        let floor = constant::<A>(Constant::CodebookUsageEpsilon);
        let mut table: Vec<Vec<A::Scalar>> = Vec::new();
        for r in 0..rows
            invariant
                embedding_sum@.len() == rows * dim,
                cluster_usage@.len() == rows,
                arith::pure::<A>() ==> floor == arith::cst::<A>(Constant::CodebookUsageEpsilon),
                table@.len() == r,
                crate::rows::uniform(crate::rows::deep(table@), dim as int),
                arith::pure::<A>() ==> forall|j: int|
                    0 <= j < r ==> {
                        &&& arith::chk::<A>(Check::Finite, #[trigger] cluster_usage@[j])
                        &&& table@[j]@ == entry_of::<A>(
                            embedding_sum@,
                            cluster_usage@,
                            dim as int,
                            j,
                        )
                    },
        {
            let usage = cluster_usage[r];
            if !check::<A>(Check::Finite, usage) {
                return Err(CodecError::NonFiniteClusterUsage { row: r });
            }
            let divisor = binary::<A>(Binary::Max, usage, floor);
            proof {
                crate::rows::lemma_row_bounds(r as int, rows as int, dim as int);
            }
            let source = row_of(embedding_sum, r, dim);
            let mut entry: Vec<A::Scalar> = Vec::new();
            for i in 0..dim
                invariant
                    source@.len() == dim,
                    source@ == crate::rows::row(embedding_sum@, r as int, dim as int),
                    entry@.len() == i,
                    arith::pure::<A>() ==> forall|j: int|
                        0 <= j < i ==> #[trigger] entry@[j] == arith::bin::<A>(
                            Binary::Div,
                            source@[j],
                            divisor,
                        ),
            {
                entry.push(binary::<A>(Binary::Div, source[i], divisor));
            }
            proof {
                if arith::pure::<A>() {
                    assert(entry@ =~= entry_of::<A>(
                        embedding_sum@,
                        cluster_usage@,
                        dim as int,
                        r as int,
                    ));
                }
            }
            let ghost before = table@;
            table.push(entry);
            proof {
                assert forall|j: int| 0 <= j < crate::rows::deep(table@).len() implies (
                #[trigger] crate::rows::deep(table@)[j]).len() == dim by {
                    if j < r {
                        assert(crate::rows::deep(before)[j].len() == dim);
                    }
                }
            }
        }
        let entries = join_rows(&table);
        let book = MaterializedCodebook { entries, rows, dim };
        proof {
            crate::rows::lemma_flatten_len(crate::rows::deep(table@), dim as int);
            if arith::pure::<A>() {
                assert forall|r: int| 0 <= r < rows implies arith::chk::<A>(
                    Check::Finite,
                    #[trigger] cluster_usage@[r],
                ) && book.entry(r) == entry_of::<A>(
                    embedding_sum@,
                    cluster_usage@,
                    dim as int,
                    r,
                ) by {
                    crate::rows::lemma_flatten_row(crate::rows::deep(table@), dim as int, r);
                }
            }
        }
        Ok(book)
    }

    /// Adds one code vector to `output`, or names the code that has none.
    fn add_code(&self, code: i32, frame: usize, group: usize, output: &mut Vec<A::Scalar>) -> (
        result: Result<(), CodecError>)
        requires
            self.wf(),
        ensures
            (0 <= code < self.size() && old(output)@.len() == self.width()) <==> result is Ok,
            match result {
                Ok(()) => {
                    &&& final(output)@.len() == old(output)@.len()
                    &&& arith::pure::<A>() ==> final(output)@ == kernels::zip::<A>(
                        Binary::Add,
                        old(output)@,
                        self.entry(code as int),
                    )
                },
                Err(error) => error == (CodecError::InvalidCode { frame, group, code }),
            },
    {
        if code < 0 || code as usize >= self.rows || output.len() != self.dim {
            return Err(CodecError::InvalidCode { frame, group, code });
        }
        proof {
            rows::lemma_row_bounds(code as int, self.rows as int, self.dim as int);
        }
        let source = row_of(self.entries.as_slice(), code as usize, self.dim);
        let sum = zip_with::<A>(Binary::Add, output.as_slice(), source);
        *output = sum;
        Ok(())
    }

    /// The materialised table as `[rows, dim]`.
    pub fn entries(&self) -> (table: &[A::Scalar])
        ensures
            table@ == self.table(),
    {
        self.entries.as_slice()
    }
}

/// Borrowed quantizer weights: the first branch decodes group zero, the second all other groups.
#[derive(Clone, Copy)]
pub struct SplitResidualVectorQuantizer<'a, A: Arithmetic> {
    /// The semantic group-zero codebook.
    pub first_codebook: &'a MaterializedCodebook<A>,
    /// The acoustic codebooks, in group order.
    pub rest_codebooks: &'a [MaterializedCodebook<A>],
    /// `[latent, codebook]` projection of the first branch.
    pub first_output_proj: &'a [A::Scalar],
    /// `[latent, codebook]` projection of the other branch.
    pub rest_output_proj: &'a [A::Scalar],
}

impl<'a, A: Arithmetic> SplitResidualVectorQuantizer<'a, A> {
    /// Every codebook has the shape it claims.
    pub open spec fn wf(&self) -> bool {
        &&& self.first_codebook.wf()
        &&& forall|i: int|
            0 <= i < self.rest_codebooks@.len() ==> (#[trigger] self.rest_codebooks@[i]).wf()
    }

    /// The codebook of one group.
    pub open spec fn book(&self, group: int) -> MaterializedCodebook<A> {
        if group == 0 {
            *self.first_codebook
        } else {
            self.rest_codebooks@[group - 1]
        }
    }

    /// That the codes, weights and output buffer fit the geometry.
    pub open spec fn layout_fits(
        &self,
        config: CodecConfig<A::Scalar>,
        codes: int,
        frames: int,
        output: int,
    ) -> bool {
        &&& codes == frames * config.groups
        &&& self.rest_codebooks@.len() == (if config.groups > 0 {
            config.groups - 1
        } else {
            0
        })
        &&& self.first_codebook.size() == config.codebook_size
        &&& self.first_codebook.width() == config.codebook_dim
        &&& self.first_output_proj@.len() == config.codec_latent_dim * config.codebook_dim
        &&& self.rest_output_proj@.len() == config.codec_latent_dim * config.codebook_dim
        &&& output == frames * config.codec_latent_dim
    }

    /// That a code of one group names an entry of that group's codebook.
    pub open spec fn code_fits(
        &self,
        config: CodecConfig<A::Scalar>,
        codes: Seq<i32>,
        group: int,
    ) -> bool {
        &&& 0 <= codes[group] < self.book(group).size()
        &&& self.book(group).width() == config.codebook_dim
    }

    /// That every group of one frame holds a valid code.
    pub open spec fn frame_fits(&self, config: CodecConfig<A::Scalar>, codes: Seq<i32>) -> bool {
        forall|g: int| 0 <= g < config.groups ==> #[trigger] self.code_fits(config, codes, g)
    }

    /// The group-zero vector of one frame.
    pub open spec fn first_sum(
        &self,
        config: CodecConfig<A::Scalar>,
        codes: Seq<i32>,
    ) -> Seq<A::Scalar> {
        kernels::zip::<A>(
            Binary::Add,
            rows::filled(config.codebook_dim as int, arith::cst::<A>(Constant::Zero)),
            self.first_codebook.entry(codes[0] as int),
        )
    }

    /// The sum of the first `n` acoustic vectors of one frame, in group order.
    pub open spec fn rest_sum(
        &self,
        config: CodecConfig<A::Scalar>,
        codes: Seq<i32>,
        n: int,
    ) -> Seq<A::Scalar>
        decreases n,
    {
        if n <= 0 {
            rows::filled(config.codebook_dim as int, arith::cst::<A>(Constant::Zero))
        } else {
            kernels::zip::<A>(
                Binary::Add,
                self.rest_sum(config, codes, n - 1),
                self.rest_codebooks@[n - 1].entry(codes[n] as int),
            )
        }
    }

    /// The latent of one frame: both branches projected, then added.
    pub open spec fn latent_of(
        &self,
        config: CodecConfig<A::Scalar>,
        codes: Seq<i32>,
    ) -> Seq<A::Scalar> {
        kernels::zip::<A>(
            Binary::Add,
            kernels::linear_of::<A>(
                Reduction::Convolution,
                self.first_sum(config, codes),
                self.first_output_proj@,
                None,
                config.codec_latent_dim as int,
            ),
            kernels::linear_of::<A>(
                Reduction::Convolution,
                self.rest_sum(config, codes, self.rest_codebooks@.len() as int),
                self.rest_output_proj@,
                None,
                config.codec_latent_dim as int,
            ),
        )
    }

    /// The latents of a code sequence, frame by frame.
    pub open spec fn latents_of(
        &self,
        config: CodecConfig<A::Scalar>,
        codes: Seq<Seq<i32>>,
    ) -> Seq<Seq<A::Scalar>> {
        Seq::new(codes.len(), |f: int| self.latent_of(config, codes[f]))
    }

    /// That the decode stopped at the first code, frame by frame and group by group, without an
    /// entry.
    pub open spec fn stopped_at(
        &self,
        config: CodecConfig<A::Scalar>,
        codes: Seq<Seq<i32>>,
        frame: int,
        group: int,
    ) -> bool {
        &&& 0 <= frame < codes.len()
        &&& 0 <= group < config.groups
        &&& !self.code_fits(config, codes[frame], group)
        &&& forall|f: int| 0 <= f < frame ==> self.frame_fits(config, #[trigger] codes[f])
        &&& forall|g: int| 0 <= g < group ==> #[trigger] self.code_fits(config, codes[frame], g)
    }

    /// Decodes one frame of codes.
    fn decode_frame(
        &self,
        config: CodecConfig<A::Scalar>,
        codes: &[i32],
        frame: usize,
    ) -> (result: Result<Vec<A::Scalar>, CodecError>)
        requires
            self.wf(),
            config.groups > 0,
            codes@.len() == config.groups,
            self.rest_codebooks@.len() == config.groups - 1,
            self.first_codebook.width() == config.codebook_dim,
            self.first_output_proj@.len() == config.codec_latent_dim * config.codebook_dim,
            self.rest_output_proj@.len() == config.codec_latent_dim * config.codebook_dim,
        ensures
            match result {
                Ok(latent) => {
                    &&& self.frame_fits(config, codes@)
                    &&& latent@.len() == config.codec_latent_dim
                    &&& arith::pure::<A>() ==> latent@ == self.latent_of(config, codes@)
                },
                Err(CodecError::InvalidCode { frame: f, group, code }) => {
                    &&& f == frame
                    &&& group < config.groups
                    &&& code == codes@[group as int]
                    &&& !self.code_fits(config, codes@, group as int)
                    &&& forall|g: int|
                        0 <= g < group ==> #[trigger] self.code_fits(config, codes@, g)
                },
                Err(_) => false,
            },
    {
        let zero = constant::<A>(Constant::Zero);
        let mut first = fill(config.codebook_dim, zero);
        let mut rest = fill(config.codebook_dim, zero);
        proof {
            assert(self.book(0) == *self.first_codebook);
        }
        self.first_codebook.add_code(codes[0], frame, 0, &mut first)?;
        proof {
            assert(self.code_fits(config, codes@, 0));
        }
        for index in 0..self.rest_codebooks.len()
            invariant
                self.wf(),
                codes@.len() == config.groups,
                self.rest_codebooks@.len() == config.groups - 1,
                rest@.len() == config.codebook_dim,
                forall|g: int| 0 <= g <= index ==> #[trigger] self.code_fits(config, codes@, g),
                arith::pure::<A>() ==> rest@ == self.rest_sum(config, codes@, index as int),
        {
            proof {
                assert(self.rest_codebooks@[index as int].wf());
                assert(self.book(index + 1) == self.rest_codebooks@[index as int]);
            }
            self.rest_codebooks[index].add_code(codes[index + 1], frame, index + 1, &mut rest)?;
            proof {
                assert(self.code_fits(config, codes@, index + 1));
            }
        }
        let a = linear::<A>(
            Reduction::Convolution,
            first.as_slice(),
            self.first_output_proj,
            None,
            config.codec_latent_dim,
        );
        let b = linear::<A>(
            Reduction::Convolution,
            rest.as_slice(),
            self.rest_output_proj,
            None,
            config.codec_latent_dim,
        );
        Ok(zip_with::<A>(Binary::Add, a.as_slice(), b.as_slice()))
    }

    /// Decodes rows of codes to rows of latents.
    pub fn decode_rows(
        &self,
        config: CodecConfig<A::Scalar>,
        codes: &[i32],
        frames: usize,
    ) -> (result: Result<Vec<Vec<A::Scalar>>, CodecError>)
        requires
            self.wf(),
            config.groups > 0 || frames == 0,
            self.layout_fits(
                config,
                codes@.len() as int,
                frames as int,
                frames * config.codec_latent_dim,
            ),
        ensures
            match result {
                Ok(latents) => {
                    &&& latents@.len() == frames
                    &&& rows::uniform(rows::deep(latents@), config.codec_latent_dim as int)
                    &&& forall|f: int|
                        0 <= f < frames ==> self.frame_fits(
                            config,
                            #[trigger] rows::unstack(
                                codes@,
                                frames as int,
                                config.groups as int,
                            )[f],
                        )
                    &&& arith::pure::<A>() ==> rows::deep(latents@) == self.latents_of(
                        config,
                        rows::unstack(codes@, frames as int, config.groups as int),
                    )
                },
                Err(CodecError::InvalidCode { frame, group, code }) => {
                    &&& self.stopped_at(
                        config,
                        rows::unstack(codes@, frames as int, config.groups as int),
                        frame as int,
                        group as int,
                    )
                    &&& code == rows::unstack(
                        codes@,
                        frames as int,
                        config.groups as int,
                    )[frame as int][group as int]
                },
                Err(_) => false,
            },
    {
        let ghost all = rows::unstack(codes@, frames as int, config.groups as int);
        let mut latents: Vec<Vec<A::Scalar>> = Vec::new();
        for f in 0..frames
            invariant
                self.wf(),
                config.groups > 0 || frames == 0,
                self.layout_fits(
                    config,
                    codes@.len() as int,
                    frames as int,
                    frames * config.codec_latent_dim,
                ),
                all == rows::unstack(codes@, frames as int, config.groups as int),
                latents@.len() == f,
                rows::uniform(rows::deep(latents@), config.codec_latent_dim as int),
                forall|j: int| 0 <= j < f ==> self.frame_fits(config, #[trigger] all[j]),
                arith::pure::<A>() ==> forall|j: int|
                    0 <= j < f ==> (#[trigger] latents@[j])@ == self.latent_of(config, all[j]),
        {
            proof {
                rows::lemma_row_bounds(f as int, frames as int, config.groups as int);
            }
            let codes_row = row_of(codes, f, config.groups);
            proof {
                assert(all[f as int] == codes_row@);
            }
            let latent = self.decode_frame(config, codes_row, f)?;
            let ghost before = latents@;
            latents.push(latent);
            proof {
                assert forall|j: int| 0 <= j < rows::deep(latents@).len() implies (
                #[trigger] rows::deep(latents@)[j]).len() == config.codec_latent_dim by {
                    if j < f {
                        assert(rows::deep(before)[j].len() == config.codec_latent_dim);
                    }
                }
            }
        }
        proof {
            if arith::pure::<A>() {
                assert(rows::deep(latents@) =~= self.latents_of(config, all));
            }
        }
        Ok(latents)
    }

    /// Decodes `[frames, groups]` code ids to `[frames, latent]` values.
    ///
    /// A layout that does not fit, and then the first code without an entry, are refused with
    /// the output left as it was.
    pub fn decode(
        &self,
        config: CodecConfig<A::Scalar>,
        codes: &[i32],
        frames: usize,
        output: &mut [A::Scalar],
    ) -> (result: Result<(), CodecError>)
        requires
            self.wf(),
            config.groups > 0 || frames == 0,
        ensures
            final(output)@.len() == old(output)@.len(),
            !self.layout_fits(
                config,
                codes@.len() as int,
                frames as int,
                old(output)@.len() as int,
            ) <==> result == Err::<(), CodecError>(CodecError::CodeLayout),
            match result {
                Ok(()) => {
                    &&& forall|f: int|
                        0 <= f < frames ==> self.frame_fits(
                            config,
                            #[trigger] rows::unstack(
                                codes@,
                                frames as int,
                                config.groups as int,
                            )[f],
                        )
                    &&& arith::pure::<A>() ==> final(output)@ == self.latents_of(
                        config,
                        rows::unstack(codes@, frames as int, config.groups as int),
                    ).flatten()
                },
                Err(CodecError::CodeLayout) => final(output)@ == old(output)@,
                Err(CodecError::InvalidCode { frame, group, code }) => {
                    &&& final(output)@ == old(output)@
                    &&& self.stopped_at(
                        config,
                        rows::unstack(codes@, frames as int, config.groups as int),
                        frame as int,
                        group as int,
                    )
                    &&& code == rows::unstack(
                        codes@,
                        frames as int,
                        config.groups as int,
                    )[frame as int][group as int]
                },
                Err(_) => false,
            },
    {
        if !self.layout_check(config, codes.len(), frames, output.len()) {
            return Err(CodecError::CodeLayout);
        }
        let latents = self.decode_rows(config, codes, frames)?;
        let flat = join_rows(&latents);
        proof {
            rows::lemma_flatten_len(rows::deep(latents@), config.codec_latent_dim as int);
        }
        store(output, flat.as_slice());
        Ok(())
    }

    /// Whether the codes, weights and output buffer fit the geometry.
    pub fn layout_check(
        &self,
        config: CodecConfig<A::Scalar>,
        codes: usize,
        frames: usize,
        output: usize,
    ) -> (fits: bool)
        ensures
            fits == self.layout_fits(config, codes as int, frames as int, output as int),
    {
        let rest: usize = if config.groups > 0 {
            config.groups - 1
        } else {
            0
        };
        is_product(frames, config.groups, codes) && self.rest_codebooks.len() == rest
            && self.first_codebook.rows == config.codebook_size && self.first_codebook.dim
            == config.codebook_dim && is_product(
            config.codec_latent_dim,
            config.codebook_dim,
            self.first_output_proj.len(),
        ) && is_product(config.codec_latent_dim, config.codebook_dim, self.rest_output_proj.len())
            && is_product(frames, config.codec_latent_dim, output)
    }
}

} // verus!
