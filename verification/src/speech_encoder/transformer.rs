//! The encoder's transformer: LayerNorm with bias, plain causal attention, GELU, scaled residuals.
use vstd::prelude::*;
use crate::arith;
use crate::arith::{binary, constant, unary, Arithmetic, Binary, Constant, Reduction, Unary};
use crate::codec::transformer;
use crate::codec::transformer::codec_rope_rows;
use crate::kernels;
use crate::kernels::{attend_heads, gelu_each, linear, scaled_residual};
use crate::rows;
use crate::rows::{fill, join_rows, row_of, store};
use crate::speech_encoder::HIDDEN;

verus! {

/// Attention heads.
pub const HEADS: usize = 8;

/// Width of one head.
pub const HEAD_DIM: usize = 64;

/// Width inside the feed-forward branch.
pub const INTERMEDIATE: usize = 2_048;

/// One layer's weights.
#[derive(Clone, Debug)]
pub struct TransformerLayer<S> {
    /// Norm before attention: weight.
    pub input_norm_weight: Vec<S>,
    /// Norm before attention: bias.
    pub input_norm_bias: Vec<S>,
    /// Query projection.
    pub q_proj: Vec<S>,
    /// Key projection.
    pub k_proj: Vec<S>,
    /// Value projection.
    pub v_proj: Vec<S>,
    /// Output projection.
    pub o_proj: Vec<S>,
    /// Channel scales of the attention branch.
    pub attn_scale: Vec<S>,
    /// Norm before the feed-forward branch: weight.
    pub post_norm_weight: Vec<S>,
    /// Norm before the feed-forward branch: bias.
    pub post_norm_bias: Vec<S>,
    /// Feed-forward: up.
    pub fc1: Vec<S>,
    /// Feed-forward: down.
    pub fc2: Vec<S>,
    /// Channel scales of the feed-forward branch.
    pub mlp_scale: Vec<S>,
}

/// LayerNorm of one row, with the encoder's epsilon.
pub open spec fn normed_of<A: Arithmetic>(
    x: Seq<A::Scalar>,
    weight: Seq<A::Scalar>,
    bias: Seq<A::Scalar>,
) -> Seq<A::Scalar> {
    kernels::layer_norm_of::<A>(x, weight, bias, arith::cst::<A>(Constant::EncoderNormEpsilon))
}

/// LayerNorm of one row, with the encoder's epsilon.
pub fn layer_norm<A: Arithmetic>(
    input: &[A::Scalar],
    weight: &[A::Scalar],
    bias: &[A::Scalar],
    output: &mut [A::Scalar],
)
    requires
        input@.len() == weight@.len(),
        input@.len() == bias@.len(),
        old(output)@.len() == input@.len(),
    ensures
        final(output)@.len() == input@.len(),
        arith::pure::<A>() ==> final(output)@ == normed_of::<A>(input@, weight@, bias@),
{
    let out = norm::<A>(input, weight, bias);
    store(output, out.as_slice());
}

/// LayerNorm of one row, with the encoder's epsilon.
fn norm<A: Arithmetic>(input: &[A::Scalar], weight: &[A::Scalar], bias: &[A::Scalar]) -> (out: Vec<
    A::Scalar,
>)
    requires
        input@.len() == weight@.len(),
        input@.len() == bias@.len(),
    ensures
        out@.len() == input@.len(),
        arith::pure::<A>() ==> out@ == normed_of::<A>(input@, weight@, bias@),
{
    kernels::layer_norm::<A>(input, weight, bias, constant::<A>(Constant::EncoderNormEpsilon))
}

/// One head rotated: every value times its cosine, plus its partner times its sine, the partner
/// of the first half negated.
pub open spec fn rotated_of<A: Arithmetic>(
    x: Seq<A::Scalar>,
    cos: Seq<A::Scalar>,
    sin: Seq<A::Scalar>,
) -> Seq<A::Scalar> {
    let half = x.len() as int / 2;
    Seq::new(
        x.len(),
        |i: int|
            arith::bin::<A>(
                Binary::Add,
                arith::bin::<A>(Binary::Mul, x[i], cos[i]),
                arith::bin::<A>(
                    Binary::Mul,
                    if i < half {
                        arith::un::<A>(Unary::Neg, x[i + half])
                    } else {
                        x[i - half]
                    },
                    sin[i],
                ),
            ),
    )
}

/// Every head of a row rotated for its position.
pub open spec fn rotated_heads<A: Arithmetic>(x: Seq<A::Scalar>, position: int) -> Seq<A::Scalar> {
    let cos = transformer::codec_rope_row::<A>(Unary::Cos, position as usize, HEAD_DIM);
    let sin = transformer::codec_rope_row::<A>(Unary::Sin, position as usize, HEAD_DIM);
    Seq::new(
        HEADS as nat,
        |h: int| rotated_of::<A>(rows::row(x, h, HEAD_DIM as int), cos, sin),
    ).flatten()
}

/// Rotates one head.
fn rotate<A: Arithmetic>(x: &[A::Scalar], cos: &[A::Scalar], sin: &[A::Scalar]) -> (out: Vec<
    A::Scalar,
>)
    requires
        x@.len() == HEAD_DIM,
        cos@.len() == HEAD_DIM,
        sin@.len() == HEAD_DIM,
    ensures
        out@.len() == HEAD_DIM,
        arith::pure::<A>() ==> out@ == rotated_of::<A>(x@, cos@, sin@),
{
    let half: usize = HEAD_DIM / 2;
    let mut out: Vec<A::Scalar> = Vec::new();
    for i in 0..HEAD_DIM
        invariant
            x@.len() == HEAD_DIM,
            cos@.len() == HEAD_DIM,
            sin@.len() == HEAD_DIM,
            half == HEAD_DIM / 2,
            out@.len() == i,
            arith::pure::<A>() ==> forall|j: int|
                0 <= j < i ==> #[trigger] out@[j] == rotated_of::<A>(x@, cos@, sin@)[j],
    {
        let partner = if i < half {
            unary::<A>(Unary::Neg, x[i + half])
        } else {
            x[i - half]
        };
        let own = binary::<A>(Binary::Mul, x[i], cos[i]);
        out.push(binary::<A>(Binary::Add, own, binary::<A>(Binary::Mul, partner, sin[i])));
    }
    proof {
        if arith::pure::<A>() {
            assert(out@ =~= rotated_of::<A>(x@, cos@, sin@));
        }
    }
    out
}

/// Rotates every head of a row for its position.
fn rotate_heads<A: Arithmetic>(x: &[A::Scalar], position: usize) -> (out: Vec<A::Scalar>)
    requires
        x@.len() == HIDDEN,
    ensures
        out@.len() == HIDDEN,
        arith::pure::<A>() ==> out@ == rotated_heads::<A>(x@, position as int),
{
    let zero = constant::<A>(Constant::Zero);
    let mut cos = fill(HEAD_DIM, zero);
    let mut sin = fill(HEAD_DIM, zero);
    codec_rope_rows::<A>(position, HEAD_DIM, cos.as_mut_slice(), sin.as_mut_slice());
    let mut heads: Vec<Vec<A::Scalar>> = Vec::new();
    for h in 0..HEADS
        invariant
            x@.len() == HIDDEN,
            cos@.len() == HEAD_DIM,
            sin@.len() == HEAD_DIM,
            heads@.len() == h,
            forall|j: int| 0 <= j < h ==> (#[trigger] heads@[j])@.len() == HEAD_DIM,
            arith::pure::<A>() ==> forall|j: int|
                0 <= j < h ==> (#[trigger] heads@[j])@ == rotated_of::<A>(
                    rows::row(x@, j, HEAD_DIM as int),
                    cos@,
                    sin@,
                ),
    {
        heads.push(rotate::<A>(row_of(x, h, HEAD_DIM), cos.as_slice(), sin.as_slice()));
    }
    proof {
        assert forall|j: int| 0 <= j < rows::deep(heads@).len() implies (
        #[trigger] rows::deep(heads@)[j]).len() == HEAD_DIM by {
            assert(heads@[j]@.len() == HEAD_DIM);
        }
        rows::lemma_flatten_len(rows::deep(heads@), HEAD_DIM as int);
        if arith::pure::<A>() {
            assert(rows::deep(heads@) =~= Seq::new(
                HEADS as nat,
                |h: int| rotated_of::<A>(rows::row(x@, h, HEAD_DIM as int), cos@, sin@),
            ));
        }
    }
    join_rows(&heads)
}

impl<S: Copy> TransformerLayer<S> {
    /// That every weight has its shape.
    pub open spec fn fits(&self) -> bool {
        &&& self.input_norm_weight@.len() == HIDDEN
        &&& self.input_norm_bias@.len() == HIDDEN
        &&& self.q_proj@.len() == HIDDEN * HIDDEN
        &&& self.k_proj@.len() == HIDDEN * HIDDEN
        &&& self.v_proj@.len() == HIDDEN * HIDDEN
        &&& self.o_proj@.len() == HIDDEN * HIDDEN
        &&& self.attn_scale@.len() == HIDDEN
        &&& self.post_norm_weight@.len() == HIDDEN
        &&& self.post_norm_bias@.len() == HIDDEN
        &&& self.fc1@.len() == INTERMEDIATE * HIDDEN
        &&& self.fc2@.len() == HIDDEN * INTERMEDIATE
        &&& self.mlp_scale@.len() == HIDDEN
    }

    /// A projection of one normed row.
    pub open spec fn projected<A: Arithmetic<Scalar = S>>(
        &self,
        weight: Seq<S>,
        x: Seq<S>,
    ) -> Seq<S> {
        kernels::linear_of::<A>(
            Reduction::SeededConvolution,
            normed_of::<A>(x, self.input_norm_weight@, self.input_norm_bias@),
            weight,
            None,
            HIDDEN as int,
        )
    }

    /// The query of position `t`.
    pub open spec fn query<A: Arithmetic<Scalar = S>>(&self, x: Seq<S>, t: int) -> Seq<S> {
        rotated_heads::<A>(self.projected::<A>(self.q_proj@, x), t)
    }

    /// The key of position `t`.
    pub open spec fn key<A: Arithmetic<Scalar = S>>(&self, x: Seq<S>, t: int) -> Seq<S> {
        rotated_heads::<A>(self.projected::<A>(self.k_proj@, x), t)
    }

    /// The value of a position.
    pub open spec fn value<A: Arithmetic<Scalar = S>>(&self, x: Seq<S>) -> Seq<S> {
        self.projected::<A>(self.v_proj@, x)
    }

    /// What position `t` attends to: itself and everything before it.
    pub open spec fn context<A: Arithmetic<Scalar = S>>(&self, x: Seq<Seq<S>>, t: int) -> Seq<S> {
        kernels::attend_heads_of::<A>(
            self.query::<A>(x[t], t),
            Seq::new((t + 1) as nat, |p: int| self.key::<A>(x[p], p)),
            Seq::new((t + 1) as nat, |p: int| self.value::<A>(x[p])),
            HEADS as int,
            1,
            HEAD_DIM as int,
            arith::cst::<A>(Constant::EncoderAttentionScale),
        )
    }

    /// A row after the attention branch.
    pub open spec fn attended<A: Arithmetic<Scalar = S>>(
        &self,
        state: Seq<S>,
        context: Seq<S>,
    ) -> Seq<S> {
        kernels::scaled_residual_of::<A>(
            state,
            self.attn_scale@,
            kernels::linear_of::<A>(
                Reduction::SeededConvolution,
                context,
                self.o_proj@,
                None,
                HIDDEN as int,
            ),
        )
    }

    /// A row after the feed-forward branch.
    pub open spec fn finished<A: Arithmetic<Scalar = S>>(&self, state: Seq<S>) -> Seq<S> {
        let normed = normed_of::<A>(state, self.post_norm_weight@, self.post_norm_bias@);
        let up = kernels::gelu_row::<A>(
            kernels::linear_of::<A>(
                Reduction::SeededConvolution,
                normed,
                self.fc1@,
                None,
                INTERMEDIATE as int,
            ),
        );
        kernels::scaled_residual_of::<A>(
            state,
            self.mlp_scale@,
            kernels::linear_of::<A>(
                Reduction::SeededConvolution,
                up,
                self.fc2@,
                None,
                HIDDEN as int,
            ),
        )
    }

    /// The layer over a sequence.
    pub open spec fn applied<A: Arithmetic<Scalar = S>>(&self, x: Seq<Seq<S>>) -> Seq<Seq<S>> {
        Seq::new(
            x.len(),
            |t: int| self.finished::<A>(self.attended::<A>(x[t], self.context::<A>(x, t))),
        )
    }

    /// What a position becomes does not depend on what follows it.
    pub proof fn law_layer_is_causal<A: Arithmetic<Scalar = S>>(&self, x: Seq<Seq<S>>, n: int)
        requires
            0 <= n <= x.len(),
        ensures
            self.applied::<A>(x.take(n)) == self.applied::<A>(x).take(n),
    {
        assert forall|t: int| 0 <= t < n implies #[trigger] self.context::<A>(x.take(n), t)
            == self.context::<A>(x, t) by {
            assert(Seq::new((t + 1) as nat, |p: int| self.key::<A>(x.take(n)[p], p)) =~= Seq::new(
                (t + 1) as nat,
                |p: int| self.key::<A>(x[p], p),
            ));
            assert(Seq::new((t + 1) as nat, |p: int| self.value::<A>(x.take(n)[p])) =~= Seq::new(
                (t + 1) as nat,
                |p: int| self.value::<A>(x[p]),
            ));
        }
        assert(self.applied::<A>(x.take(n)) =~= self.applied::<A>(x).take(n));
    }

    /// The layer over rows.
    pub fn forward_rows<A: Arithmetic<Scalar = S>>(&self, x: &Vec<Vec<S>>) -> (out: Vec<Vec<S>>)
        requires
            self.fits(),
            rows::uniform(rows::deep(x@), HIDDEN as int),
        ensures
            out@.len() == x@.len(),
            rows::uniform(rows::deep(out@), HIDDEN as int),
            arith::pure::<A>() ==> rows::deep(out@) == self.applied::<A>(rows::deep(x@)),
    {
        let scale = constant::<A>(Constant::EncoderAttentionScale);
        let ghost all = rows::deep(x@);
        let mut keys: Vec<Vec<S>> = Vec::new();
        let mut values: Vec<Vec<S>> = Vec::new();
        let mut out: Vec<Vec<S>> = Vec::new();
        for t in 0..x.len()
            invariant
                self.fits(),
                all == rows::deep(x@),
                rows::uniform(all, HIDDEN as int),
                arith::pure::<A>() ==> scale == arith::cst::<A>(Constant::EncoderAttentionScale),
                keys@.len() == t,
                values@.len() == t,
                out@.len() == t,
                rows::uniform(rows::deep(keys@), HIDDEN as int),
                rows::uniform(rows::deep(values@), HIDDEN as int),
                rows::uniform(rows::deep(out@), HIDDEN as int),
                arith::pure::<A>() ==> rows::deep(keys@) == Seq::new(
                    t as nat,
                    |p: int| self.key::<A>(all[p], p),
                ),
                arith::pure::<A>() ==> rows::deep(values@) == Seq::new(
                    t as nat,
                    |p: int| self.value::<A>(all[p]),
                ),
                arith::pure::<A>() ==> forall|j: int|
                    0 <= j < t ==> (#[trigger] out@[j])@ == self.applied::<A>(all)[j],
        {
            let state = x[t].as_slice();
            proof {
                assert(all[t as int].len() == HIDDEN);
                assert(state@ == all[t as int]);
            }
            let ghost keys_before = rows::deep(keys@);
            let ghost values_before = rows::deep(values@);
            let ghost out_before = rows::deep(out@);
            let normed = norm::<A>(state, self.input_norm_weight.as_slice(), self.input_norm_bias.as_slice());
            let op = Reduction::SeededConvolution;
            let q = linear::<A>(op, normed.as_slice(), self.q_proj.as_slice(), None, HIDDEN);
            let k = linear::<A>(op, normed.as_slice(), self.k_proj.as_slice(), None, HIDDEN);
            let v = linear::<A>(op, normed.as_slice(), self.v_proj.as_slice(), None, HIDDEN);
            let query = rotate_heads::<A>(q.as_slice(), t);
            keys.push(rotate_heads::<A>(k.as_slice(), t));
            values.push(v);
            proof {
                assert(rows::deep(keys@) =~= keys_before.push(keys@[t as int]@));
                assert(rows::deep(values@) =~= values_before.push(values@[t as int]@));
                if arith::pure::<A>() {
                    assert(rows::deep(keys@) =~= Seq::new(
                        (t + 1) as nat,
                        |p: int| self.key::<A>(all[p], p),
                    ));
                    assert(rows::deep(values@) =~= Seq::new(
                        (t + 1) as nat,
                        |p: int| self.value::<A>(all[p]),
                    ));
                }
            }
            let context = attend_heads::<A>(
                query.as_slice(),
                &keys,
                &values,
                HEADS,
                1,
                HEAD_DIM,
                HEADS,
                scale,
            );
            let branch = linear::<A>(op, context.as_slice(), self.o_proj.as_slice(), None, HIDDEN);
            let attended = scaled_residual::<A>(state, self.attn_scale.as_slice(), branch.as_slice());
            let normed = norm::<A>(
                attended.as_slice(),
                self.post_norm_weight.as_slice(),
                self.post_norm_bias.as_slice(),
            );
            let up = linear::<A>(op, normed.as_slice(), self.fc1.as_slice(), None, INTERMEDIATE);
            let up = gelu_each::<A>(up.as_slice());
            let down = linear::<A>(op, up.as_slice(), self.fc2.as_slice(), None, HIDDEN);
            out.push(scaled_residual::<A>(attended.as_slice(), self.mlp_scale.as_slice(), down.as_slice()));
            proof {
                assert(rows::deep(out@) =~= out_before.push(out@[t as int]@));
            }
        }
        proof {
            if arith::pure::<A>() {
                assert(rows::deep(out@) =~= self.applied::<A>(all));
            }
        }
        out
    }
}

} // verus!
