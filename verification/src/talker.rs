//! What the rest of the model knows of the talker: its geometry, its weights, and how text and
//! codes become its input rows.
use vstd::prelude::*;
use crate::algebra;
use crate::arith;
use crate::arith::{constant, Arithmetic, Binary, Constant};
use crate::kernel_laws;
use crate::kernels;
use crate::kernels::{matvec, silu, zip_with};
use crate::quant;
use crate::quant::{Quantized, QuantizedMatrix};
use crate::rows;

verus! {

/// Width of the talker's output head.
pub const PRIMARY_CODE_VOCAB_SIZE: usize = 3_072;

/// Talker geometry.
#[derive(Clone, Copy, Debug)]
pub struct TalkerConfig<S> {
    /// Model width.
    pub hidden_size: usize,
    /// Width inside the feed-forward branch.
    pub intermediate_size: usize,
    /// Query heads.
    pub num_attention_heads: usize,
    /// Key/value heads.
    pub num_key_value_heads: usize,
    /// Width of one head.
    pub head_dim: usize,
    /// RMSNorm epsilon.
    pub rms_norm_eps: S,
    /// Head norm epsilon.
    pub qk_norm_eps: S,
}

impl<S> TalkerConfig<S> {
    /// Query projection width.
    pub open spec fn queries(&self) -> int {
        self.num_attention_heads * self.head_dim
    }

    /// Key/value projection width.
    pub open spec fn keys(&self) -> int {
        self.num_key_value_heads * self.head_dim
    }

    /// That the stacked widths can be counted.
    pub open spec fn valid(&self) -> bool {
        &&& self.queries() + 2 * self.keys() <= usize::MAX
        &&& 2 * self.intermediate_size <= usize::MAX
    }

    /// The projection widths are natural numbers.
    pub proof fn lemma_widths(&self)
        ensures
            0 <= self.queries(),
            0 <= self.keys(),
    {
        assert(0 <= self.queries()) by (nonlinear_arith)
            requires
                self.queries() == self.num_attention_heads * self.head_dim,
        ;
        assert(0 <= self.keys()) by (nonlinear_arith)
            requires
                self.keys() == self.num_key_value_heads * self.head_dim,
        ;
    }

    /// Query projection width.
    pub fn query_width(&self) -> (width: usize)
        requires
            self.num_attention_heads * self.head_dim <= usize::MAX,
        ensures
            width == self.num_attention_heads * self.head_dim,
    {
        self.num_attention_heads * self.head_dim
    }

    /// Key/value projection width.
    pub fn kv_width(&self) -> (width: usize)
        requires
            self.num_key_value_heads * self.head_dim <= usize::MAX,
        ensures
            width == self.num_key_value_heads * self.head_dim,
    {
        self.num_key_value_heads * self.head_dim
    }
}

/// One talker layer's weights.
#[derive(Clone, Copy, Debug)]
pub struct TalkerLayerWeights<'a, S> {
    /// Pre-attention RMSNorm weight.
    pub input_layernorm: &'a [S],
    /// Query projection.
    pub q_proj: &'a [S],
    /// Key projection.
    pub k_proj: &'a [S],
    /// Value projection.
    pub v_proj: &'a [S],
    /// Query head norm weight.
    pub q_norm: &'a [S],
    /// Key head norm weight.
    pub k_norm: &'a [S],
    /// Output projection.
    pub o_proj: &'a [S],
    /// Pre-MLP RMSNorm weight.
    pub post_attention_layernorm: &'a [S],
    /// SwiGLU gate projection.
    pub gate_proj: &'a [S],
    /// SwiGLU up projection.
    pub up_proj: &'a [S],
    /// SwiGLU down projection.
    pub down_proj: &'a [S],
}

impl<'a, S> TalkerLayerWeights<'a, S> {
    /// That the projections have the shapes the geometry gives them.
    pub open spec fn projections_fit(&self, config: TalkerConfig<S>) -> bool {
        let hidden = config.hidden_size as int;
        let inner = config.intermediate_size as int;
        &&& self.q_proj@.len() == config.queries() * hidden
        &&& self.k_proj@.len() == config.keys() * hidden
        &&& self.v_proj@.len() == config.keys() * hidden
        &&& self.o_proj@.len() == hidden * config.queries()
        &&& self.gate_proj@.len() == inner * hidden
        &&& self.up_proj@.len() == inner * hidden
        &&& self.down_proj@.len() == hidden * inner
    }
}

/// One talker layer's projections, packed in eight bits.
pub struct TalkerLayerQuant<Q: Quantized> {
    /// Query over key over value projection.
    pub qkv: QuantizedMatrix<Q>,
    /// Output projection.
    pub o_proj: QuantizedMatrix<Q>,
    /// Gate over up projection.
    pub gate_up: QuantizedMatrix<Q>,
    /// Down projection.
    pub down_proj: QuantizedMatrix<Q>,
}

impl<Q: Quantized> TalkerLayerQuant<Q> {
    /// That every matrix has the shape the geometry gives it.
    pub open spec fn fits(&self, config: TalkerConfig<Q::Scalar>) -> bool {
        &&& self.qkv.outputs() == config.queries() + 2 * config.keys()
        &&& self.qkv.inputs() == config.hidden_size
        &&& self.o_proj.outputs() == config.hidden_size
        &&& self.o_proj.inputs() == config.queries()
        &&& self.gate_up.outputs() == 2 * config.intermediate_size
        &&& self.gate_up.inputs() == config.hidden_size
        &&& self.down_proj.outputs() == config.hidden_size
        &&& self.down_proj.inputs() == config.intermediate_size
    }

    /// That the matrices are the packed projections of one layer.
    pub open spec fn packs<'a>(
        &self,
        config: TalkerConfig<Q::Scalar>,
        weights: TalkerLayerWeights<'a, Q::Scalar>,
    ) -> bool {
        let hidden = config.hidden_size;
        let queries = config.queries() as usize;
        let keys = config.keys() as usize;
        let inner = config.intermediate_size;
        &&& self.qkv.data() == quant::stacked::<Q>(
            quant::stacked::<Q>(
                quant::packed::<Q>(weights.q_proj@, queries, hidden),
                quant::packed::<Q>(weights.k_proj@, keys, hidden),
            ),
            quant::packed::<Q>(weights.v_proj@, keys, hidden),
        )
        &&& self.o_proj.data() == quant::packed::<Q>(weights.o_proj@, hidden, queries)
        &&& self.gate_up.data() == quant::stacked::<Q>(
            quant::packed::<Q>(weights.gate_proj@, inner, hidden),
            quant::packed::<Q>(weights.up_proj@, inner, hidden),
        )
        &&& self.down_proj.data() == quant::packed::<Q>(weights.down_proj@, hidden, inner)
    }

    /// Packs one layer's projections.
    pub fn quantize<'a>(
        config: &TalkerConfig<Q::Scalar>,
        weights: &TalkerLayerWeights<'a, Q::Scalar>,
    ) -> (layer: Self)
        requires
            config.valid(),
            weights.projections_fit(*config),
        ensures
            layer.fits(*config),
            quant::pure_quant::<Q>() ==> layer.packs(*config, *weights),
    {
        proof {
            config.lemma_widths();
        }
        let hidden: usize = config.hidden_size;
        let queries: usize = config.query_width();
        let keys: usize = config.kv_width();
        let inner: usize = config.intermediate_size;
        let q = QuantizedMatrix::<Q>::quantize(weights.q_proj, queries, hidden);
        let k = QuantizedMatrix::<Q>::quantize(weights.k_proj, keys, hidden);
        let v = QuantizedMatrix::<Q>::quantize(weights.v_proj, keys, hidden);
        let gate = QuantizedMatrix::<Q>::quantize(weights.gate_proj, inner, hidden);
        let up = QuantizedMatrix::<Q>::quantize(weights.up_proj, inner, hidden);
        TalkerLayerQuant {
            qkv: q.concat_rows(&k).concat_rows(&v),
            o_proj: QuantizedMatrix::<Q>::quantize(weights.o_proj, hidden, queries),
            gate_up: gate.concat_rows(&up),
            down_proj: QuantizedMatrix::<Q>::quantize(weights.down_proj, hidden, inner),
        }
    }
}

/// The talker's weights.
#[derive(Debug)]
pub struct TalkerWeights<'a, S> {
    /// The layers, in order.
    pub layers: Vec<TalkerLayerWeights<'a, S>>,
    /// RMSNorm weight before the head.
    pub final_norm: &'a [S],
    /// The primary-code head.
    pub codec_head: &'a [S],
}

/// The projection of a text embedding to the talker's width.
#[derive(Clone, Copy, Debug)]
pub struct TextProjection<'a, S> {
    /// First layer, `[intermediate, embed]`.
    pub fc1_weight: &'a [S],
    /// Its bias, `[intermediate]`.
    pub fc1_bias: &'a [S],
    /// Second layer, `[hidden, intermediate]`.
    pub fc2_weight: &'a [S],
    /// Its bias, `[hidden]`.
    pub fc2_bias: &'a [S],
}

impl<'a, S> TextProjection<'a, S> {
    /// That the layers fit each other, `embed` and `hidden`.
    pub open spec fn fits(&self, embed: int, hidden: int) -> bool {
        &&& self.fc2_bias@.len() == hidden
        &&& self.fc1_weight@.len() == self.fc1_bias@.len() * embed
        &&& self.fc2_weight@.len() == hidden * self.fc1_bias@.len()
    }
}

/// A layer with its bias added after the product.
pub open spec fn biased_of<A: Arithmetic>(
    weight: Seq<A::Scalar>,
    bias: Seq<A::Scalar>,
    x: Seq<A::Scalar>,
) -> Seq<A::Scalar> {
    kernels::zip::<A>(
        Binary::Add,
        kernels::matvec_of::<A>(weight, x, bias.len() as int),
        bias,
    )
}

/// SiLU of every value.
pub open spec fn silu_each<A: Arithmetic>(x: Seq<A::Scalar>) -> Seq<A::Scalar> {
    Seq::new(x.len(), |i: int| kernels::silu_of::<A>(x[i]))
}

/// One embedding projected to the talker's width.
pub open spec fn projected_of<A: Arithmetic>(
    fc1_weight: Seq<A::Scalar>,
    fc1_bias: Seq<A::Scalar>,
    fc2_weight: Seq<A::Scalar>,
    fc2_bias: Seq<A::Scalar>,
    embed: Seq<A::Scalar>,
) -> Seq<A::Scalar> {
    biased_of::<A>(
        fc2_weight,
        fc2_bias,
        silu_each::<A>(biased_of::<A>(fc1_weight, fc1_bias, embed)),
    )
}

/// Projects one embedding to the talker's width.
pub fn project_embedding<'a, A: Arithmetic>(
    projection: &TextProjection<'a, A::Scalar>,
    embed: &[A::Scalar],
) -> (out: Vec<A::Scalar>)
    requires
        projection.fits(embed@.len() as int, projection.fc2_bias@.len() as int),
    ensures
        out@.len() == projection.fc2_bias@.len(),
        arith::pure::<A>() ==> out@ == projected_of::<A>(
            projection.fc1_weight@,
            projection.fc1_bias@,
            projection.fc2_weight@,
            projection.fc2_bias@,
            embed@,
        ),
{
    let inner: usize = projection.fc1_bias.len();
    let hidden: usize = projection.fc2_bias.len();
    let sums = matvec::<A>(projection.fc1_weight, embed, inner);
    let biased = zip_with::<A>(Binary::Add, sums.as_slice(), projection.fc1_bias);
    let mut activated: Vec<A::Scalar> = Vec::new();
    for i in 0..inner
        invariant
            inner == biased@.len(),
            activated@.len() == i,
            arith::pure::<A>() ==> forall|j: int|
                0 <= j < i ==> #[trigger] activated@[j] == silu_each::<A>(biased@)[j],
    {
        activated.push(silu::<A>(biased[i]));
    }
    proof {
        if arith::pure::<A>() {
            assert(activated@ =~= silu_each::<A>(biased@));
        }
    }
    let sums = matvec::<A>(projection.fc2_weight, activated.as_slice(), hidden);
    zip_with::<A>(Binary::Add, sums.as_slice(), projection.fc2_bias)
}

/// The first `n` rows added up, in order, from zero.
pub open spec fn rows_sum<A: Arithmetic>(
    states: Seq<Seq<A::Scalar>>,
    width: int,
    n: int,
) -> Seq<A::Scalar>
    decreases n,
{
    if n <= 0 {
        rows::filled(width, arith::cst::<A>(Constant::Zero))
    } else {
        kernels::zip::<A>(Binary::Add, rows_sum::<A>(states, width, n - 1), states[n - 1])
    }
}

/// The talker's next input: every code's row, then one text row.
pub open spec fn frame_input_of<A: Arithmetic>(
    states: Seq<Seq<A::Scalar>>,
    text: Seq<A::Scalar>,
) -> Seq<A::Scalar> {
    kernels::zip::<A>(
        Binary::Add,
        rows_sum::<A>(states, text.len() as int, states.len() as int),
        text,
    )
}

/// Forms the talker's next input from the rows of a frame's codes and one text row.
pub fn form_frame_input<A: Arithmetic>(states: &Vec<Vec<A::Scalar>>, text: &[A::Scalar]) -> (out:
    Vec<A::Scalar>)
    requires
        rows::uniform(rows::deep(states@), text@.len() as int),
    ensures
        out@.len() == text@.len(),
        arith::pure::<A>() ==> out@ == frame_input_of::<A>(rows::deep(states@), text@),
{
    let width: usize = text.len();
    let mut sum: Vec<A::Scalar> = rows::fill(width, constant::<A>(Constant::Zero));
    for i in 0..states.len()
        invariant
            width == text@.len(),
            rows::uniform(rows::deep(states@), width as int),
            sum@.len() == width,
            arith::pure::<A>() ==> sum@ == rows_sum::<A>(
                rows::deep(states@),
                width as int,
                i as int,
            ),
    {
        proof {
            assert(rows::deep(states@)[i as int] == states@[i as int]@);
        }
        sum = zip_with::<A>(Binary::Add, sum.as_slice(), states[i].as_slice());
    }
    zip_with::<A>(Binary::Add, sum.as_slice(), text)
}

/// One place of an ordered sum of rows is the sum of the rows' values there.
proof fn lemma_rows_sum<A: Arithmetic>(states: Seq<Seq<A::Scalar>>, width: int, n: int, lane: int)
    requires
        algebra::additive::<A>(),
        rows::uniform(states, width),
        0 <= n <= states.len(),
        0 <= lane < width,
    ensures
        rows_sum::<A>(states, width, n).len() == width,
        rows_sum::<A>(states, width, n)[lane] == algebra::sum_over::<A>(
            |d: int| states[d][lane],
            n,
        ),
    decreases n,
{
    let term = |d: int| states[d][lane];
    if n > 0 {
        lemma_rows_sum::<A>(states, width, n - 1, lane);
        algebra::lemma_commutes::<A>(rows_sum::<A>(states, width, n - 1)[lane], term(n - 1));
        assert(algebra::sum_over::<A>(term, n) == algebra::plus::<A>(
            term(n - 1),
            algebra::sum_over::<A>(term, n - 1),
        ));
    }
}

/// Every row of a frame enters the talker's next input once, and so does the text row: where
/// addition is exact, each value of the input is the text's value plus the sum of all rows'
/// values at that place.
pub proof fn law_next_input_adds_every_row<A: Arithmetic>(
    states: Seq<Seq<A::Scalar>>,
    text: Seq<A::Scalar>,
    lane: int,
)
    requires
        algebra::additive::<A>(),
        rows::uniform(states, text.len() as int),
        0 <= lane < text.len(),
    ensures
        frame_input_of::<A>(states, text).len() == text.len(),
        frame_input_of::<A>(states, text)[lane] == algebra::plus::<A>(
            text[lane],
            algebra::sum_over::<A>(|d: int| states[d][lane], states.len() as int),
        ),
{
    lemma_rows_sum::<A>(states, text.len() as int, states.len() as int, lane);
    algebra::lemma_commutes::<A>(
        rows_sum::<A>(states, text.len() as int, states.len() as int)[lane],
        text[lane],
    );
}

/// What changes when one term of a sum changes.
proof fn lemma_sum_with_one_changed<A: Arithmetic>(
    a: spec_fn(int) -> A::Scalar,
    b: spec_fn(int) -> A::Scalar,
    n: int,
    k: int,
)
    requires
        algebra::additive::<A>(),
        0 <= k < n,
        forall|i: int| 0 <= i < n && i != k ==> #[trigger] a(i) == b(i),
    ensures
        algebra::plus::<A>(algebra::sum_over::<A>(a, n), b(k)) == algebra::plus::<A>(
            algebra::sum_over::<A>(b, n),
            a(k),
        ),
    decreases n,
{
    let before_a = algebra::sum_over::<A>(a, n - 1);
    let before_b = algebra::sum_over::<A>(b, n - 1);
    if k == n - 1 {
        algebra::lemma_sum_alike::<A>(a, b, n - 1);
        algebra::lemma_commutes::<A>(a(k), before_a);
        algebra::lemma_commutes::<A>(b(k), before_a);
        algebra::lemma_associates::<A>(before_a, a(k), b(k));
        algebra::lemma_associates::<A>(before_a, b(k), a(k));
        algebra::lemma_commutes::<A>(a(k), b(k));
    } else {
        lemma_sum_with_one_changed::<A>(a, b, n - 1, k);
        assert(a(n - 1) == b(n - 1));
        algebra::lemma_associates::<A>(a(n - 1), before_a, b(k));
        algebra::lemma_associates::<A>(b(n - 1), before_b, a(k));
    }
}

/// Two frames that differ in the row of one depth give inputs that differ by exactly those two
/// rows, whichever depth it is.
pub proof fn law_each_row_counts_once<A: Arithmetic>(
    states: Seq<Seq<A::Scalar>>,
    text: Seq<A::Scalar>,
    depth: int,
    other: Seq<A::Scalar>,
    lane: int,
)
    requires
        algebra::additive::<A>(),
        rows::uniform(states, text.len() as int),
        other.len() == text.len(),
        0 <= depth < states.len(),
        0 <= lane < text.len(),
    ensures
        algebra::plus::<A>(frame_input_of::<A>(states, text)[lane], other[lane])
            == algebra::plus::<A>(
            frame_input_of::<A>(states.update(depth, other), text)[lane],
            states[depth][lane],
        ),
{
    let changed = states.update(depth, other);
    let a = |d: int| states[d][lane];
    let b = |d: int| changed[d][lane];
    law_next_input_adds_every_row::<A>(states, text, lane);
    law_next_input_adds_every_row::<A>(changed, text, lane);
    lemma_sum_with_one_changed::<A>(a, b, states.len() as int, depth);
    let n = states.len() as int;
    algebra::lemma_associates::<A>(text[lane], algebra::sum_over::<A>(a, n), b(depth));
    algebra::lemma_associates::<A>(text[lane], algebra::sum_over::<A>(b, n), a(depth));
}

/// Where the text row and every row but one are silent, the input is that row.
pub proof fn law_a_lone_row_is_the_input<A: Arithmetic>(
    states: Seq<Seq<A::Scalar>>,
    text: Seq<A::Scalar>,
    depth: int,
)
    requires
        algebra::neutral_zero::<A>(),
        rows::uniform(states, text.len() as int),
        0 <= depth < states.len(),
        algebra::silent::<A>(text),
        forall|d: int| 0 <= d < states.len() && d != depth ==> algebra::silent::<A>(
            #[trigger] states[d],
        ),
    ensures
        frame_input_of::<A>(states, text) == states[depth],
{
    lemma_lone_row::<A>(states, text.len() as int, depth, states.len() as int);
    assert(frame_input_of::<A>(states, text) =~= states[depth]);
}

/// The sum of the first rows while all but one are silent.
proof fn lemma_lone_row<A: Arithmetic>(
    states: Seq<Seq<A::Scalar>>,
    width: int,
    depth: int,
    n: int,
)
    requires
        algebra::neutral_zero::<A>(),
        rows::uniform(states, width),
        0 <= width,
        0 <= depth < states.len(),
        0 <= n <= states.len(),
        forall|d: int| 0 <= d < states.len() && d != depth ==> algebra::silent::<A>(
            #[trigger] states[d],
        ),
    ensures
        rows_sum::<A>(states, width, n) == if depth < n {
            states[depth]
        } else {
            rows::filled(width, algebra::zero::<A>())
        },
    decreases n,
{
    if n > 0 {
        lemma_lone_row::<A>(states, width, depth, n - 1);
        let sum = rows_sum::<A>(states, width, n);
        assert(states[n - 1].len() == width);
        assert(states[depth].len() == width);
        if n - 1 == depth {
            assert(sum =~= states[depth]);
        } else {
            assert(algebra::silent::<A>(states[n - 1]));
            if depth < n {
                assert(sum =~= states[depth]);
            } else {
                assert(sum =~= rows::filled(width, algebra::zero::<A>()));
            }
        }
    }
}

/// A projected embedding follows its weights. Where output `o` reads one unit of the inner layer and
/// that unit reads one value of the embedding, the output is the SiLU of that value and the unit's
/// bias, plus the output's bias.
pub proof fn law_projection_follows_one_path<A: Arithmetic>(
    fc1_weight: Seq<A::Scalar>,
    fc1_bias: Seq<A::Scalar>,
    fc2_weight: Seq<A::Scalar>,
    fc2_bias: Seq<A::Scalar>,
    embed: Seq<A::Scalar>,
    o: int,
    unit: int,
    source: int,
)
    requires
        algebra::units::<A>(),
        fc1_weight.len() == fc1_bias.len() * embed.len(),
        fc2_weight.len() == fc2_bias.len() * fc1_bias.len(),
        0 <= o < fc2_bias.len(),
        algebra::singles_out::<A>(rows::row(fc2_weight, o, fc1_bias.len() as int), unit),
        algebra::singles_out::<A>(rows::row(fc1_weight, unit, embed.len() as int), source),
    ensures
        projected_of::<A>(fc1_weight, fc1_bias, fc2_weight, fc2_bias, embed).len()
            == fc2_bias.len(),
        projected_of::<A>(fc1_weight, fc1_bias, fc2_weight, fc2_bias, embed)[o] == algebra::plus::<
            A,
        >(
            kernels::silu_of::<A>(algebra::plus::<A>(embed[source], fc1_bias[unit])),
            fc2_bias[o],
        ),
{
    let k = fc1_bias.len() as int;
    let inner = silu_each::<A>(biased_of::<A>(fc1_weight, fc1_bias, embed));
    rows::lemma_row_bounds(o, fc2_bias.len() as int, k);
    kernel_laws::law_matvec_reads_its_row::<A>(fc1_weight, embed, k, unit, source);
    kernel_laws::law_matvec_reads_its_row::<A>(
        fc2_weight,
        inner,
        fc2_bias.len() as int,
        o,
        unit,
    );
}

/// Whatever [`form_frame_input`] is called on, each value it returns is the text's value plus the sum
/// of the values of all rows at that place, where addition is exact.
pub proof fn law_formed_inputs_add_every_row<A: Arithmetic>(
    states: &Vec<Vec<A::Scalar>>,
    text: &[A::Scalar],
    out: Vec<A::Scalar>,
    lane: int,
)
    requires
        arith::pure::<A>(),
        algebra::additive::<A>(),
        call_ensures(form_frame_input::<A>, (states, text), out),
        rows::uniform(rows::deep(states@), text@.len() as int),
        0 <= lane < text@.len(),
    ensures
        out@.len() == text@.len(),
        out@[lane] == algebra::plus::<A>(
            text@[lane],
            algebra::sum_over::<A>(|d: int| states@[d]@[lane], states@.len() as int),
        ),
{
    law_next_input_adds_every_row::<A>(rows::deep(states@), text@, lane);
    algebra::lemma_sum_alike::<A>(
        |d: int| rows::deep(states@)[d][lane],
        |d: int| states@[d]@[lane],
        states@.len() as int,
    );
}

/// Whatever [`project_embedding`] is called on, an output that reads one inner unit, which reads one
/// value of the embedding, is the SiLU of that value and the unit's bias, plus the output's bias.
pub proof fn law_projected_embeddings_follow_one_path<'a, A: Arithmetic>(
    projection: &TextProjection<'a, A::Scalar>,
    embed: &[A::Scalar],
    out: Vec<A::Scalar>,
    o: int,
    unit: int,
    source: int,
)
    requires
        arith::pure::<A>(),
        algebra::units::<A>(),
        projection.fits(embed@.len() as int, projection.fc2_bias@.len() as int),
        call_ensures(project_embedding::<A>, (projection, embed), out),
        0 <= o < projection.fc2_bias@.len(),
        algebra::singles_out::<A>(
            rows::row(projection.fc2_weight@, o, projection.fc1_bias@.len() as int),
            unit,
        ),
        algebra::singles_out::<A>(
            rows::row(projection.fc1_weight@, unit, embed@.len() as int),
            source,
        ),
    ensures
        out@[o] == algebra::plus::<A>(
            kernels::silu_of::<A>(algebra::plus::<A>(embed@[source], projection.fc1_bias@[unit])),
            projection.fc2_bias@[o],
        ),
{
    law_projection_follows_one_path::<A>(
        projection.fc1_weight@,
        projection.fc1_bias@,
        projection.fc2_weight@,
        projection.fc2_bias@,
        embed@,
        o,
        unit,
        source,
    );
}

} // verus!
