//! What the microdecoder computes, said without the way it computes it.
use vstd::prelude::*;
use crate::algebra;
use crate::algebra::{minus, one, over, plus, silent, singles_out, sum_over, times, zero};
use crate::arith;
use crate::arith::{Arithmetic, Binary, Constant, Unary};
use crate::kernel_laws;
use crate::kernels;
use crate::kernels::KvRows;
use crate::microdecoder;
use crate::microdecoder::frame;
use crate::microdecoder::frame::{FrameInputs, PackedRoute};
use crate::microdecoder::layer;
use crate::microdecoder::layer::{LayerWeights, PackedLayer};
use crate::microdecoder::{MicrodecoderConfig, RopeTable, RESIDUAL_DEPTHS, RESIDUAL_VOCAB};
use crate::quant;
use crate::quant::{Quantized, QuantizedMatrix};
use crate::rows;
use crate::talker::{TalkerConfig, TalkerLayerQuant, TalkerLayerWeights};

verus! {

/// RMSNorm divides by the root of the mean square. With `root` the square root of the mean of the
/// squares and epsilon, a normed value under weight one, times the root, is the value; weight zero
/// leaves nothing.
pub proof fn law_rms_norm_divides_by_the_root<A: Arithmetic>(
    x: Seq<A::Scalar>,
    weight: Seq<A::Scalar>,
    eps: A::Scalar,
    root: A::Scalar,
    i: int,
)
    requires
        algebra::units::<A>(),
        algebra::additive::<A>(),
        weight.len() == x.len(),
        0 <= i < x.len(),
        root == arith::un::<A>(
            Unary::Sqrt,
            plus::<A>(
                over::<A>(
                    sum_over::<A>(|j: int| times::<A>(x[j], x[j]), x.len() as int),
                    arith::num::<A>(x.len() as usize),
                ),
                eps,
            ),
        ),
        forall|v: A::Scalar|
            times::<A>(#[trigger] times::<A>(v, over::<A>(one::<A>(), root)), root) == v,
    ensures
        microdecoder::micro_rms::<A>(x, weight, eps).len() == x.len(),
        weight[i] == one::<A>() ==> times::<A>(microdecoder::micro_rms::<A>(x, weight, eps)[i], root)
            == x[i],
        weight[i] == zero::<A>() ==> microdecoder::micro_rms::<A>(x, weight, eps)[i] == zero::<A>(),
{
    kernel_laws::law_dot_sums_every_product::<A>(x, x, x.len() as int);
    assert(times::<A>(times::<A>(x[i], over::<A>(one::<A>(), root)), root) == x[i]);
}

/// The angle of pair `index` at a position, times the base to the power of `2 index / width`, is
/// the position, and both halves of a rotary row hold the same angles.
pub proof fn law_angles_fall_with_the_pair<A: Arithmetic>(
    op: Unary,
    theta: A::Scalar,
    position: usize,
    index: int,
    width: usize,
    step: A::Scalar,
)
    requires
        width % 2 == 0,
        0 <= index < width as int / 2,
        step == arith::bin::<A>(
            Binary::Pow,
            theta,
            over::<A>(
                times::<A>(arith::cst::<A>(Constant::Two), arith::num::<A>(index as usize)),
                arith::num::<A>(width),
            ),
        ),
        forall|v: A::Scalar|
            times::<A>(#[trigger] times::<A>(v, over::<A>(one::<A>(), step)), step) == v,
    ensures
        times::<A>(microdecoder::micro_angle::<A>(theta, position, index, width), step)
            == arith::num::<A>(position),
        microdecoder::micro_rope_row::<A>(op, theta, position, width).len() == width,
        microdecoder::micro_rope_row::<A>(op, theta, position, width)[index] == arith::un::<A>(
            op,
            microdecoder::micro_angle::<A>(theta, position, index, width),
        ),
        microdecoder::micro_rope_row::<A>(op, theta, position, width)[index + width as int / 2]
            == microdecoder::micro_rope_row::<A>(op, theta, position, width)[index],
{
    let p = arith::num::<A>(position);
    assert(times::<A>(times::<A>(p, over::<A>(one::<A>(), step)), step) == p);
}

/// Every head is normed on its own and then rotated, in its place.
pub proof fn law_heads_are_normed_then_rotated<Q: Quantized>(
    x: Seq<Q::Scalar>,
    heads: int,
    width: int,
    weight: Seq<Q::Scalar>,
    eps: Q::Scalar,
    cos: Seq<Q::Scalar>,
    sin: Seq<Q::Scalar>,
    head: int,
)
    requires
        0 <= width,
        x.len() == heads * width,
        0 <= head < heads,
    ensures
        layer::normed_heads::<Q>(x, heads, width, weight, eps, cos, sin).len() == heads * width,
        rows::row(layer::normed_heads::<Q>(x, heads, width, weight, eps, cos, sin), head, width)
            == kernels::rope_of::<Q>(
            microdecoder::micro_rms::<Q>(rows::row(x, head, width), weight, eps),
            cos,
            sin,
        ),
{
    let parts = Seq::new(
        heads as nat,
        |h: int|
            kernels::rope_of::<Q>(
                microdecoder::micro_rms::<Q>(rows::row(x, h, width), weight, eps),
                cos,
                sin,
            ),
    );
    assert forall|h: int| 0 <= h < parts.len() implies (#[trigger] parts[h]).len() == width by {
        rows::lemma_row_bounds(h, heads, width);
    }
    rows::lemma_flatten_row(parts, width, head);
    rows::lemma_flatten_len(parts, width);
}

/// Attention fills the width of the queries.
proof fn lemma_context_len<'a, Q: Quantized>(
    config: MicrodecoderConfig<Q::Scalar>,
    weights: LayerWeights<'a, Q::Scalar>,
    packed: Option<PackedLayer<Q>>,
    cos: Seq<Q::Scalar>,
    sin: Seq<Q::Scalar>,
    hidden: Seq<Q::Scalar>,
    kv: KvRows<Q::Scalar>,
)
    ensures
        layer::context_of::<Q>(
            config,
            layer::query_of::<Q>(config, weights, packed, cos, sin, hidden),
            kv,
        ).len() == config.queries(),
{
    let heads = config.num_q_heads as int;
    let width = config.head_dim as int;
    assert(0 <= heads * width) by (nonlinear_arith)
        requires
            0 <= heads,
            0 <= width,
    ;
    let normed = microdecoder::micro_rms::<Q>(hidden, weights.input_norm@, config.rms_eps);
    let query = layer::query_of::<Q>(config, weights, packed, cos, sin, hidden);
    let scale = over::<Q>(
        one::<Q>(),
        arith::un::<Q>(Unary::Sqrt, arith::num::<Q>(config.head_dim)),
    );
    if heads > 0 {
        law_heads_are_normed_then_rotated::<Q>(
            layer::q_row::<Q>(config, weights, packed, normed),
            heads,
            width,
            weights.q_norm@,
            config.rms_eps,
            cos,
            sin,
            0,
        );
        let parts = Seq::new(
            heads as nat,
            |h: int|
                kernels::attend_of::<Q>(
                    rows::row(query, h, width),
                    kernels::head_rows(kv.keys, (h / config.group()) * width, width),
                    kernels::head_rows(kv.values, (h / config.group()) * width, width),
                    scale,
                ),
        );
        assert forall|h: int| 0 <= h < parts.len() implies (#[trigger] parts[h]).len()
            == width by {
            rows::lemma_row_bounds(h, heads, width);
        }
        rows::lemma_flatten_len(parts, width);
    } else {
        assert(heads * width == 0) by (nonlinear_arith)
            requires
                heads == 0,
        ;
        let parts = Seq::new(
            0,
            |h: int|
                kernels::attend_of::<Q>(
                    rows::row(query, h, width),
                    kernels::head_rows(kv.keys, (h / config.group()) * width, width),
                    kernels::head_rows(kv.values, (h / config.group()) * width, width),
                    scale,
                ),
        );
        rows::lemma_flatten_len(parts, width);
    }
}

/// A layer is its input plus two branches, packed or not: where neither the attention branch nor the
/// feed-forward branch has anything to add, it changes nothing.
pub proof fn law_silent_branches_leave_the_state<'a, Q: Quantized>(
    config: MicrodecoderConfig<Q::Scalar>,
    weights: LayerWeights<'a, Q::Scalar>,
    packed: Option<PackedLayer<Q>>,
    cos: Seq<Q::Scalar>,
    sin: Seq<Q::Scalar>,
    hidden: Seq<Q::Scalar>,
    kv: KvRows<Q::Scalar>,
)
    requires
        algebra::neutral_zero::<Q>(),
        hidden.len() == config.hidden_size,
        forall|v: Seq<Q::Scalar>|
            v.len() == config.queries() ==> silent::<Q>(
                #[trigger] layer::o_row::<Q>(config, weights, packed, v),
            ),
        forall|v: Seq<Q::Scalar>|
            v.len() == config.intermediate_size ==> silent::<Q>(
                #[trigger] layer::down_row::<Q>(config, weights, packed, v),
            ),
    ensures
        layer::state_of::<Q>(config, weights, packed, cos, sin, hidden, kv) == hidden,
{
    let context = layer::context_of::<Q>(
        config,
        layer::query_of::<Q>(config, weights, packed, cos, sin, hidden),
        layer::cache_of::<Q>(config, weights, packed, cos, sin, hidden, kv),
    );
    lemma_context_len::<Q>(
        config,
        weights,
        packed,
        cos,
        sin,
        hidden,
        layer::cache_of::<Q>(config, weights, packed, cos, sin, hidden, kv),
    );
    let attended = kernels::zip::<Q>(
        Binary::Add,
        hidden,
        layer::o_row::<Q>(config, weights, packed, context),
    );
    assert(silent::<Q>(layer::o_row::<Q>(config, weights, packed, context)));
    assert(attended =~= hidden);
    let normed = microdecoder::micro_rms::<Q>(
        hidden,
        weights.post_attention_norm@,
        config.rms_eps,
    );
    let activated = kernels::swiglu_of::<Q>(
        layer::gate_row::<Q>(config, weights, packed, normed),
        layer::up_row::<Q>(config, weights, packed, normed),
    );
    assert(silent::<Q>(layer::down_row::<Q>(config, weights, packed, activated)));
    assert(layer::finish_of::<Q>(config, weights, packed, hidden) =~= hidden);
}

/// On the plain route a layer without an output and a down projection changes nothing.
pub proof fn law_silent_projections_leave_the_state<'a, Q: Quantized>(
    config: MicrodecoderConfig<Q::Scalar>,
    weights: LayerWeights<'a, Q::Scalar>,
    cos: Seq<Q::Scalar>,
    sin: Seq<Q::Scalar>,
    hidden: Seq<Q::Scalar>,
    kv: KvRows<Q::Scalar>,
)
    requires
        algebra::units::<Q>(),
        weights.fits(config),
        hidden.len() == config.hidden_size,
        silent::<Q>(weights.o_proj@),
        silent::<Q>(weights.down_proj@),
    ensures
        layer::state_of::<Q>(config, weights, None, cos, sin, hidden, kv) == hidden,
{
    let wide = config.hidden_size as int;
    assert forall|v: Seq<Q::Scalar>| v.len() == config.queries() implies silent::<Q>(
        #[trigger] layer::o_row::<Q>(config, weights, None, v),
    ) by {
        lemma_silent_matvec::<Q>(weights.o_proj@, v, wide);
    }
    assert forall|v: Seq<Q::Scalar>| v.len() == config.intermediate_size implies silent::<Q>(
        #[trigger] layer::down_row::<Q>(config, weights, None, v),
    ) by {
        lemma_silent_matvec::<Q>(weights.down_proj@, v, wide);
    }
    law_silent_branches_leave_the_state::<Q>(config, weights, None, cos, sin, hidden, kv);
}

/// Weights of zeros answer zeros.
proof fn lemma_silent_matvec<A: Arithmetic>(weight: Seq<A::Scalar>, x: Seq<A::Scalar>, n: int)
    requires
        algebra::units::<A>(),
        0 <= n,
        weight.len() == n * x.len(),
        silent::<A>(weight),
    ensures
        silent::<A>(kernels::matvec_of::<A>(weight, x, n)),
{
    let k = x.len() as int;
    let out = kernels::matvec_of::<A>(weight, x, n);
    assert forall|o: int| 0 <= o < out.len() implies #[trigger] out[o] == zero::<A>() by {
        rows::lemma_row_bounds(o, n, k);
        let row = rows::row(weight, o, k);
        assert forall|i: int| 0 <= i < row.len() implies #[trigger] row[i] == zero::<A>() by {
            assert(row[i] == weight[o * k + i]);
        }
        kernel_laws::law_silent_dot::<A>(row, x, k);
    }
}

/// The attention branch is added to the input. Where the output projection answers only zeros the
/// layer is its feed-forward branch on the input; and where the feed-forward branch answers only
/// zeros, each value of the layer is the input's plus the projected attention's.
pub proof fn law_branches_are_added_in_turn<'a, Q: Quantized>(
    config: MicrodecoderConfig<Q::Scalar>,
    weights: LayerWeights<'a, Q::Scalar>,
    packed: Option<PackedLayer<Q>>,
    cos: Seq<Q::Scalar>,
    sin: Seq<Q::Scalar>,
    hidden: Seq<Q::Scalar>,
    kv: KvRows<Q::Scalar>,
    branch: Seq<Q::Scalar>,
    o: int,
)
    requires
        algebra::neutral_zero::<Q>(),
        hidden.len() == config.hidden_size,
        0 <= o < hidden.len(),
        branch == layer::o_row::<Q>(
            config,
            weights,
            packed,
            layer::context_of::<Q>(
                config,
                layer::query_of::<Q>(config, weights, packed, cos, sin, hidden),
                layer::cache_of::<Q>(config, weights, packed, cos, sin, hidden, kv),
            ),
        ),
        branch.len() == hidden.len(),
    ensures
        silent::<Q>(branch) ==> layer::state_of::<Q>(
            config,
            weights,
            packed,
            cos,
            sin,
            hidden,
            kv,
        ) == layer::finish_of::<Q>(config, weights, packed, hidden),
        (forall|v: Seq<Q::Scalar>|
            v.len() == config.intermediate_size ==> silent::<Q>(
                #[trigger] layer::down_row::<Q>(config, weights, packed, v),
            ))
            ==> layer::state_of::<Q>(config, weights, packed, cos, sin, hidden, kv)[o] == plus::<Q>(
            hidden[o],
            branch[o],
        ),
        (forall|v: Seq<Q::Scalar>|
            v.len() == config.intermediate_size ==> silent::<Q>(
                #[trigger] layer::down_row::<Q>(config, weights, packed, v),
            ))
            && silent::<Q>(hidden) ==> layer::state_of::<Q>(
            config,
            weights,
            packed,
            cos,
            sin,
            hidden,
            kv,
        ) == branch,
{
    let attended = kernels::zip::<Q>(Binary::Add, hidden, branch);
    if silent::<Q>(branch) {
        assert(attended =~= hidden);
    }
    let normed = microdecoder::micro_rms::<Q>(
        attended,
        weights.post_attention_norm@,
        config.rms_eps,
    );
    let activated = kernels::swiglu_of::<Q>(
        layer::gate_row::<Q>(config, weights, packed, normed),
        layer::up_row::<Q>(config, weights, packed, normed),
    );
    let down = layer::down_row::<Q>(config, weights, packed, activated);
    if silent::<Q>(down) {
        assert(layer::finish_of::<Q>(config, weights, packed, attended) =~= attended);
        if silent::<Q>(hidden) {
            assert(attended =~= branch);
        }
    }
}

/// One path through the attention branch at the first position. Where output `o` reads one lane of
/// one query head, and the same lane of the key/value head that the query head shares reads one
/// normed channel, the projected attention there is that channel's normed value.
pub proof fn law_the_first_position_attends_to_itself<'a, Q: Quantized>(
    config: MicrodecoderConfig<Q::Scalar>,
    weights: LayerWeights<'a, Q::Scalar>,
    cos: Seq<Q::Scalar>,
    sin: Seq<Q::Scalar>,
    hidden: Seq<Q::Scalar>,
    o: int,
    head: int,
    shared: int,
    lane: int,
    source: int,
)
    requires
        algebra::units::<Q>(),
        config.valid(),
        weights.fits(config),
        hidden.len() == config.hidden_size,
        0 <= o < config.hidden_size,
        0 <= head < config.num_q_heads,
        0 <= shared < config.num_kv_heads,
        shared * config.group() <= head < shared * config.group() + config.group(),
        0 <= lane < config.head_dim,
        singles_out::<Q>(
            rows::row(weights.o_proj@, o, config.queries()),
            head * config.head_dim + lane,
        ),
        singles_out::<Q>(
            rows::row(
                weights.v_proj@,
                shared * config.head_dim + lane,
                config.hidden_size as int,
            ),
            source,
        ),
        forall|s: Q::Scalar|
            #[trigger] arith::bin::<Q>(Binary::Max, arith::cst::<Q>(Constant::NegativeInfinity), s)
                == s,
        forall|s: Q::Scalar|
            arith::un::<Q>(Unary::Exp, #[trigger] minus::<Q>(s, s)) == one::<Q>(),
        over::<Q>(one::<Q>(), one::<Q>()) == one::<Q>(),
    ensures
        layer::o_row::<Q>(
            config,
            weights,
            None,
            layer::context_of::<Q>(
                config,
                layer::query_of::<Q>(config, weights, None, cos, sin, hidden),
                layer::cache_of::<Q>(
                    config,
                    weights,
                    None,
                    cos,
                    sin,
                    hidden,
                    kernels::no_rows::<Q::Scalar>(),
                ),
            ),
        )[o] == microdecoder::micro_rms::<Q>(
            hidden,
            weights.input_norm@,
            config.rms_eps,
        )[source],
{
    let width = config.head_dim as int;
    let heads = config.num_q_heads as int;
    let shares = config.num_kv_heads as int;
    let wide = config.hidden_size as int;
    let normed = microdecoder::micro_rms::<Q>(hidden, weights.input_norm@, config.rms_eps);
    let query = layer::query_of::<Q>(config, weights, None, cos, sin, hidden);
    let cached = layer::cache_of::<Q>(
        config,
        weights,
        None,
        cos,
        sin,
        hidden,
        kernels::no_rows::<Q::Scalar>(),
    );
    let value = layer::v_row::<Q>(config, weights, None, normed);
    let key = cached.keys[0];
    rows::lemma_row_bounds(head, heads, width);
    rows::lemma_row_bounds(shared, shares, width);
    assert(0 <= heads * width && 0 <= shares * width);
    law_heads_are_normed_then_rotated::<Q>(
        layer::q_row::<Q>(config, weights, None, normed),
        heads,
        width,
        weights.q_norm@,
        config.rms_eps,
        cos,
        sin,
        head,
    );
    law_heads_are_normed_then_rotated::<Q>(
        layer::k_row::<Q>(config, weights, None, normed),
        shares,
        width,
        weights.k_norm@,
        config.rms_eps,
        cos,
        sin,
        shared,
    );
    assert(cached.keys =~= seq![key]);
    assert(cached.values =~= seq![value]);
    let scale = over::<Q>(
        one::<Q>(),
        arith::un::<Q>(Unary::Sqrt, arith::num::<Q>(config.head_dim)),
    );
    let context = layer::context_of::<Q>(config, query, cached);
    kernel_laws::law_heads_attend_apart::<Q>(
        query,
        cached.keys,
        cached.values,
        heads,
        config.group(),
        width,
        scale,
        head,
        shared,
    );
    let mine = rows::row(value, shared, width);
    assert(kernels::head_rows(cached.values, shared * width, width) =~= seq![mine]);
    assert(kernels::head_rows(cached.keys, shared * width, width) =~= seq![
        rows::row(key, shared, width),
    ]);
    kernel_laws::law_one_position_is_attended_whole::<Q>(
        rows::row(query, head, width),
        rows::row(key, shared, width),
        mine,
        scale,
    );
    assert(rows::row(context, head, width)[lane] == context[head * width + lane]);
    assert(mine[lane] == value[shared * width + lane]);
    rows::lemma_row_bounds(shared * width + lane, shares * width, wide);
    kernel_laws::law_matvec_reads_its_row::<Q>(
        weights.v_proj@,
        normed,
        config.keys(),
        shared * width + lane,
        source,
    );
    rows::lemma_row_bounds(o, wide, config.queries());
    kernel_laws::law_matvec_reads_its_row::<Q>(
        weights.o_proj@,
        context,
        wide,
        o,
        head * width + lane,
    );
}

/// One path through the feed-forward branch. Where output `o` reads one inner unit, whose gate reads
/// one normed channel and whose partner reads another, the state there gains the SiLU of the first
/// times the second.
pub proof fn law_the_feed_forward_branch_follows_one_path<'a, Q: Quantized>(
    config: MicrodecoderConfig<Q::Scalar>,
    weights: LayerWeights<'a, Q::Scalar>,
    residual: Seq<Q::Scalar>,
    o: int,
    unit: int,
    gate: int,
    up: int,
)
    requires
        algebra::units::<Q>(),
        weights.fits(config),
        residual.len() == config.hidden_size,
        0 <= o < config.hidden_size,
        singles_out::<Q>(
            rows::row(weights.down_proj@, o, config.intermediate_size as int),
            unit,
        ),
        singles_out::<Q>(rows::row(weights.gate_proj@, unit, config.hidden_size as int), gate),
        singles_out::<Q>(rows::row(weights.up_proj@, unit, config.hidden_size as int), up),
    ensures
        ({
            let normed = microdecoder::micro_rms::<Q>(
                residual,
                weights.post_attention_norm@,
                config.rms_eps,
            );
            layer::finish_of::<Q>(config, weights, None, residual)[o] == plus::<Q>(
                residual[o],
                times::<Q>(kernels::silu_of::<Q>(normed[gate]), normed[up]),
            )
        }),
{
    let wide = config.hidden_size as int;
    let inner = config.intermediate_size as int;
    let normed = microdecoder::micro_rms::<Q>(
        residual,
        weights.post_attention_norm@,
        config.rms_eps,
    );
    rows::lemma_row_bounds(o, wide, inner);
    rows::lemma_row_bounds(unit, inner, wide);
    let gates = kernels::matvec_of::<Q>(weights.gate_proj@, normed, inner);
    let ups = kernels::matvec_of::<Q>(weights.up_proj@, normed, inner);
    kernel_laws::law_matvec_reads_its_row::<Q>(weights.gate_proj@, normed, inner, unit, gate);
    kernel_laws::law_matvec_reads_its_row::<Q>(weights.up_proj@, normed, inner, unit, up);
    kernel_laws::law_matvec_reads_its_row::<Q>(
        weights.down_proj@,
        kernels::swiglu_of::<Q>(gates, ups),
        wide,
        o,
        unit,
    );
}

/// What a layer has cached after some positions: one row of rotated keys and one of values for each,
/// in order, made of the position's own row and its own angles.
pub proof fn law_every_position_is_cached<'a, Q: Quantized>(
    config: MicrodecoderConfig<Q::Scalar>,
    weights: LayerWeights<'a, Q::Scalar>,
    packed: Option<PackedLayer<Q>>,
    rope: RopeTable<Q>,
    x: Seq<Seq<Q::Scalar>>,
    n: int,
    p: int,
)
    requires
        0 <= p < n <= x.len(),
    ensures
        ({
            let cached = layer::cache_after::<Q>(config, weights, packed, rope, x, n);
            let normed = microdecoder::micro_rms::<Q>(
                x[p],
                weights.input_norm@,
                config.rms_eps,
            );
            &&& cached.keys.len() == n
            &&& cached.values.len() == n
            &&& cached.values[p] == layer::v_row::<Q>(config, weights, packed, normed)
            &&& cached.keys[p] == layer::normed_heads::<Q>(
                layer::k_row::<Q>(config, weights, packed, normed),
                config.num_kv_heads as int,
                config.head_dim as int,
                weights.k_norm@,
                config.rms_eps,
                rope.cosines(p),
                rope.sines(p),
            )
        }),
    decreases n,
{
    if p < n - 1 {
        law_every_position_is_cached::<Q>(config, weights, packed, rope, x, n - 1, p);
    } else if n > 1 {
        law_every_position_is_cached::<Q>(config, weights, packed, rope, x, n - 1, 0);
    } else {
        assert(layer::cache_after::<Q>(config, weights, packed, rope, x, 0)
            == kernels::no_rows::<Q::Scalar>());
    }
}

/// Each position runs with its own angles on what the positions before it have cached.
pub proof fn law_positions_run_in_order<'a, Q: Quantized>(
    config: MicrodecoderConfig<Q::Scalar>,
    weights: LayerWeights<'a, Q::Scalar>,
    packed: Option<PackedLayer<Q>>,
    rope: RopeTable<Q>,
    x: Seq<Seq<Q::Scalar>>,
    p: int,
)
    requires
        0 <= p < x.len(),
    ensures
        layer::layer_rows::<Q>(config, weights, packed, rope, x).len() == x.len(),
        layer::layer_rows::<Q>(config, weights, packed, rope, x)[p] == layer::state_of::<Q>(
            config,
            weights,
            packed,
            rope.cosines(p),
            rope.sines(p),
            x[p],
            layer::cache_after::<Q>(config, weights, packed, rope, x, p),
        ),
{
}

/// That a layer of the frame's stack has nothing to add.
pub open spec fn layer_silent<'a, Q: Quantized>(frame: FrameInputs<'a, Q>, l: int) -> bool {
    &&& forall|v: Seq<Q::Scalar>|
        v.len() == frame.config.queries() ==> silent::<Q>(
            #[trigger] layer::o_row::<Q>(frame.config, frame.weights.layers@[l], frame.body(l), v),
        )
    &&& forall|v: Seq<Q::Scalar>|
        v.len() == frame.config.intermediate_size ==> silent::<Q>(
            #[trigger] layer::down_row::<Q>(
                frame.config,
                frame.weights.layers@[l],
                frame.body(l),
                v,
            ),
        )
}

/// Layers keep the width of their rows.
proof fn lemma_stack_uniform<'a, Q: Quantized>(
    frame: FrameInputs<'a, Q>,
    x: Seq<Seq<Q::Scalar>>,
    l: int,
)
    requires
        rows::uniform(x, frame.config.hidden_size as int),
    ensures
        frame.stack_rows(x, l).len() == x.len(),
        rows::uniform(frame.stack_rows(x, l), frame.config.hidden_size as int),
    decreases l,
{
    if l > 0 {
        lemma_stack_uniform::<Q>(frame, x, l - 1);
    }
}

/// Every layer counts: where the layers after layer `last` are silent, what leaves the stack is what
/// that layer made of what reached it.
pub proof fn law_every_layer_counts<'a, Q: Quantized>(
    frame: FrameInputs<'a, Q>,
    x: Seq<Seq<Q::Scalar>>,
    last: int,
    n: int,
)
    requires
        algebra::neutral_zero::<Q>(),
        rows::uniform(x, frame.config.hidden_size as int),
        0 <= last < n,
        forall|l: int| last < l < n ==> #[trigger] layer_silent::<Q>(frame, l),
    ensures
        frame.stack_rows(x, n) == layer::layer_rows::<Q>(
            frame.config,
            frame.weights.layers@[last],
            frame.body(last),
            frame.rope,
            frame.stack_rows(x, last),
        ),
        frame.stack_rows(x, 0) == x,
    decreases n,
{
    if n > last + 1 {
        law_every_layer_counts::<Q>(frame, x, last, n - 1);
        let before = frame.stack_rows(x, n - 1);
        let after = frame.stack_rows(x, n);
        lemma_stack_uniform::<Q>(frame, x, n - 1);
        assert(layer_silent::<Q>(frame, n - 1));
        assert forall|p: int| 0 <= p < before.len() implies #[trigger] after[p] == before[p] by {
            assert(before[p].len() == frame.config.hidden_size);
            law_silent_branches_leave_the_state::<Q>(
                frame.config,
                frame.weights.layers@[n - 1],
                frame.body(n - 1),
                frame.rope.cosines(p),
                frame.rope.sines(p),
                before[p],
                layer::cache_after::<Q>(
                    frame.config,
                    frame.weights.layers@[n - 1],
                    frame.body(n - 1),
                    frame.rope,
                    before,
                    p,
                ),
            );
        }
        assert(after =~= before);
    }
}

/// A frame reads the talker's state first, then the primary code in the talker's table, then every
/// residual code in the table of its own depth.
pub proof fn law_a_frame_reads_every_code<'a, Q: Quantized>(
    frame: FrameInputs<'a, Q>,
    codes: Seq<usize>,
    n: int,
    depth: int,
)
    requires
        2 <= n <= 16,
        0 <= depth < n - 2,
    ensures
        frame.input_rows(codes, n).len() == n,
        frame.input_rows(codes, n)[0] == frame.talker_hidden,
        frame.input_rows(codes, n)[1] == frame.weights.talker_codec_embedding@.subrange(
            frame.primary_code * frame.config.hidden_size,
            frame.primary_code * frame.config.hidden_size + frame.config.hidden_size,
        ),
        frame.input_rows(codes, n)[depth + 2]
            == frame.weights.residual_embeddings@[depth]@.subrange(
            codes[depth] * frame.config.hidden_size,
            codes[depth] * frame.config.hidden_size + frame.config.hidden_size,
        ),
{
}

/// The scores of a depth come from the head of that depth, on the row that follows the code before
/// it. Where a token's weights in the head single out one channel, its score on the plain route is
/// that channel of the finished, normed row.
pub proof fn law_depths_are_scored_by_their_heads<'a, Q: Quantized>(
    frame: FrameInputs<'a, Q>,
    codes: Seq<usize>,
    depth: int,
    finished: Seq<Q::Scalar>,
    token: int,
    channel: int,
)
    requires
        algebra::units::<Q>(),
        0 <= depth < RESIDUAL_DEPTHS,
        frame.route is None,
        finished == frame.stack_rows(
            frame.input_rows(codes, depth + 2),
            frame.config.num_layers as int,
        )[depth + 1],
        finished.len() == frame.config.hidden_size,
        frame.weights.heads@[depth]@.len() == RESIDUAL_VOCAB * frame.config.hidden_size,
        0 <= token < RESIDUAL_VOCAB,
        singles_out::<Q>(
            rows::row(frame.weights.heads@[depth]@, token, frame.config.hidden_size as int),
            channel,
        ),
    ensures
        frame.logits(codes, depth).len() == RESIDUAL_VOCAB,
        frame.logits(codes, depth)[token] == microdecoder::micro_rms::<Q>(
            finished,
            frame.weights.final_norm@,
            frame.config.rms_eps,
        )[channel],
{
    let normed = microdecoder::micro_rms::<Q>(
        finished,
        frame.weights.final_norm@,
        frame.config.rms_eps,
    );
    kernel_laws::law_matvec_reads_its_row::<Q>(
        frame.weights.heads@[depth]@,
        normed,
        RESIDUAL_VOCAB as int,
        token,
        channel,
    );
}

/// That a packed matrix answers, row by row, as plain weights of width `k` do.
pub open spec fn stands_for<Q: Quantized>(
    mode: Q::Mode,
    matrix: QuantizedMatrix<Q>,
    weight: Seq<Q::Scalar>,
    n: int,
    k: int,
) -> bool {
    forall|x: Seq<Q::Scalar>, o: int|
        x.len() == k && 0 <= o < n ==> #[trigger] quant::proj::<Q>(
            mode,
            x,
            matrix.data(),
            o as usize,
        ) == kernels::dot::<Q>(rows::row(weight, o, k), x, k)
}

/// A stretch of a packed matrix answers as the weights stacked there.
proof fn lemma_stretch<Q: Quantized>(
    mode: Q::Mode,
    x: Seq<Q::Scalar>,
    matrix: QuantizedMatrix<Q>,
    before: Seq<Q::Scalar>,
    weight: Seq<Q::Scalar>,
    after: Seq<Q::Scalar>,
    from: int,
    n: int,
    total: int,
)
    requires
        0 <= from,
        0 <= n,
        from + n <= total <= usize::MAX,
        before.len() == from * x.len(),
        weight.len() == n * x.len(),
        stands_for::<Q>(mode, matrix, before + weight + after, total, x.len() as int),
    ensures
        quant::projected::<Q>(mode, x, matrix, from, n) == kernels::matvec_of::<Q>(weight, x, n),
{
    let k = x.len() as int;
    let all = before + weight + after;
    let packed = quant::projected::<Q>(mode, x, matrix, from, n);
    let plain = kernels::matvec_of::<Q>(weight, x, n);
    assert forall|o: int| 0 <= o < n implies #[trigger] packed[o] == plain[o] by {
        assert(quant::proj::<Q>(mode, x, matrix.data(), (from + o) as usize) == kernels::dot::<Q>(
            rows::row(all, from + o, k),
            x,
            k,
        ));
        rows::lemma_row_bounds(o, n, k);
        assert((from + o) * k == from * k + o * k) by (nonlinear_arith);
        assert(0 <= from * k) by (nonlinear_arith)
            requires
                0 <= from,
                0 <= k,
        ;
        assert(rows::row(all, from + o, k) =~= rows::row(weight, o, k));
    }
    assert(packed =~= plain);
}

/// The packed route is the plain one in another form. Where the packed matrices answer as the query,
/// key and value projections stacked in this order, as the output projection, as the SwiGLU pair
/// stacked in its order, and as the down projection, a packed layer gives what the plain layer gives.
pub proof fn law_the_packed_layer_stands_for_the_plain_one<'a, Q: Quantized>(
    config: MicrodecoderConfig<Q::Scalar>,
    weights: LayerWeights<'a, Q::Scalar>,
    packed: PackedLayer<Q>,
    cos: Seq<Q::Scalar>,
    sin: Seq<Q::Scalar>,
    hidden: Seq<Q::Scalar>,
    kv: KvRows<Q::Scalar>,
)
    requires
        config.valid(),
        weights.fits(config),
        hidden.len() == config.hidden_size,
        stands_for::<Q>(
            packed.mode,
            packed.layer.qkv,
            weights.q_proj@ + weights.k_proj@ + weights.v_proj@,
            config.queries() + 2 * config.keys(),
            config.hidden_size as int,
        ),
        stands_for::<Q>(
            packed.mode,
            packed.layer.o_proj,
            weights.o_proj@,
            config.hidden_size as int,
            config.queries(),
        ),
        stands_for::<Q>(
            packed.mode,
            packed.layer.gate_up,
            weights.gate_proj@ + weights.up_proj@,
            2 * config.intermediate_size,
            config.hidden_size as int,
        ),
        stands_for::<Q>(
            packed.mode,
            packed.layer.down_proj,
            weights.down_proj@,
            config.hidden_size as int,
            config.intermediate_size as int,
        ),
    ensures
        layer::state_of::<Q>(config, weights, Some(packed), cos, sin, hidden, kv)
            == layer::state_of::<Q>(config, weights, None, cos, sin, hidden, kv),
        layer::cache_of::<Q>(config, weights, Some(packed), cos, sin, hidden, kv)
            == layer::cache_of::<Q>(config, weights, None, cos, sin, hidden, kv),
{
    let mode = packed.mode;
    let wide = config.hidden_size as int;
    let inner = config.intermediate_size as int;
    let queries = config.queries();
    let keys = config.keys();
    let none = Seq::<Q::Scalar>::empty();
    let q = weights.q_proj@;
    let k = weights.k_proj@;
    let v = weights.v_proj@;
    assert(0 <= queries) by (nonlinear_arith)
        requires
            queries == config.num_q_heads * config.head_dim,
    ;
    assert(0 <= keys) by (nonlinear_arith)
        requires
            keys == config.num_kv_heads * config.head_dim,
    ;
    let normed = microdecoder::micro_rms::<Q>(hidden, weights.input_norm@, config.rms_eps);
    assert(none + q + (k + v) =~= q + k + v);
    assert(q + k + v + none =~= q + k + v);
    assert((q + k).len() == (queries + keys) * wide) by (nonlinear_arith)
        requires
            (q + k).len() == queries * wide + keys * wide,
    ;
    lemma_stretch::<Q>(
        mode,
        normed,
        packed.layer.qkv,
        none,
        q,
        k + v,
        0,
        queries,
        queries + 2 * keys,
    );
    lemma_stretch::<Q>(
        mode,
        normed,
        packed.layer.qkv,
        q,
        k,
        v,
        queries,
        keys,
        queries + 2 * keys,
    );
    lemma_stretch::<Q>(
        mode,
        normed,
        packed.layer.qkv,
        q + k,
        v,
        none,
        queries + keys,
        keys,
        queries + 2 * keys,
    );
    let cached = layer::cache_of::<Q>(config, weights, None, cos, sin, hidden, kv);
    let context = layer::context_of::<Q>(
        config,
        layer::query_of::<Q>(config, weights, None, cos, sin, hidden),
        cached,
    );
    lemma_context_len::<Q>(config, weights, None, cos, sin, hidden, cached);
    assert(none + weights.o_proj@ + none =~= weights.o_proj@);
    lemma_stretch::<Q>(
        mode,
        context,
        packed.layer.o_proj,
        none,
        weights.o_proj@,
        none,
        0,
        wide,
        wide,
    );
    let attended = kernels::zip::<Q>(
        Binary::Add,
        hidden,
        layer::o_row::<Q>(config, weights, None, context),
    );
    let again = microdecoder::micro_rms::<Q>(
        attended,
        weights.post_attention_norm@,
        config.rms_eps,
    );
    let gate = weights.gate_proj@;
    let up = weights.up_proj@;
    assert(none + gate + up =~= gate + up);
    assert(gate + up + none =~= gate + up);
    lemma_stretch::<Q>(mode, again, packed.layer.gate_up, none, gate, up, 0, inner, 2 * inner);
    lemma_stretch::<Q>(mode, again, packed.layer.gate_up, gate, up, none, inner, inner, 2 * inner);
    let activated = kernels::swiglu_of::<Q>(
        layer::gate_row::<Q>(config, weights, None, again),
        layer::up_row::<Q>(config, weights, None, again),
    );
    assert(none + weights.down_proj@ + none =~= weights.down_proj@);
    lemma_stretch::<Q>(
        mode,
        activated,
        packed.layer.down_proj,
        none,
        weights.down_proj@,
        none,
        0,
        wide,
        wide,
    );
}

/// A position attends, head by head, over everything cached. The part of the context that belongs to a
/// query head is that head's attention over the key/value head it shares, with one over the root of the
/// head's width as its scale.
pub proof fn law_heads_attend_over_the_frame<Q: Quantized>(
    config: MicrodecoderConfig<Q::Scalar>,
    query: Seq<Q::Scalar>,
    kv: KvRows<Q::Scalar>,
    head: int,
    shared: int,
)
    requires
        config.valid(),
        query.len() == config.queries(),
        0 <= head < config.num_q_heads,
        0 <= shared < config.num_kv_heads,
        shared * config.group() <= head < shared * config.group() + config.group(),
    ensures
        rows::row(
            layer::context_of::<Q>(config, query, kv),
            head,
            config.head_dim as int,
        ) == kernels::attend_of::<Q>(
            rows::row(query, head, config.head_dim as int),
            kernels::head_rows(kv.keys, shared * config.head_dim, config.head_dim as int),
            kernels::head_rows(kv.values, shared * config.head_dim, config.head_dim as int),
            over::<Q>(
                one::<Q>(),
                arith::un::<Q>(Unary::Sqrt, arith::num::<Q>(config.head_dim)),
            ),
        ),
{
    kernel_laws::law_heads_attend_apart::<Q>(
        query,
        kv.keys,
        kv.values,
        config.num_q_heads as int,
        config.group(),
        config.head_dim as int,
        over::<Q>(one::<Q>(), arith::un::<Q>(Unary::Sqrt, arith::num::<Q>(config.head_dim))),
        head,
        shared,
    );
}

/// The cosines and the sines of a rotary table are those of each position's angles.
pub proof fn law_tables_hold_the_angles_of_their_positions<A: Arithmetic>(
    table: RopeTable<A>,
    config: MicrodecoderConfig<A::Scalar>,
    position: usize,
    index: int,
)
    requires
        table.turns(config),
        position < 16,
        config.head_dim % 2 == 0,
        0 <= index < config.head_dim as int / 2,
    ensures
        table.cosines(position as int).len() == config.head_dim,
        table.sines(position as int).len() == config.head_dim,
        table.cosines(position as int)[index] == arith::un::<A>(
            Unary::Cos,
            microdecoder::micro_angle::<A>(config.rope_theta, position, index, config.head_dim),
        ),
        table.sines(position as int)[index] == arith::un::<A>(
            Unary::Sin,
            microdecoder::micro_angle::<A>(config.rope_theta, position, index, config.head_dim),
        ),
{
    let cosines = table.cosines(position as int);
}

/// That the engine packs without loss: what it packs answers as the weights, and what it stacks of two
/// or three packed pieces answers as the weights one over the other.
#[verifier::opaque]
pub open spec fn packs_without_loss<Q: Quantized>(mode: Q::Mode) -> bool {
    &&& forall|a: Seq<Q::Scalar>, m: usize, k: usize|
        a.len() == m * k ==> answers_as::<Q>(
            mode,
            #[trigger] quant::packed::<Q>(a, m, k),
            a,
            m as int,
            k as int,
        )
    &&& forall|a: Seq<Q::Scalar>, b: Seq<Q::Scalar>, m: usize, n: usize, k: usize|
        a.len() == m * k && b.len() == n * k && m + n <= usize::MAX ==> answers_as::<Q>(
            mode,
            #[trigger] quant::stacked::<Q>(
                quant::packed::<Q>(a, m, k),
                quant::packed::<Q>(b, n, k),
            ),
            a + b,
            m + n,
            k as int,
        )
    &&& forall|
        a: Seq<Q::Scalar>,
        b: Seq<Q::Scalar>,
        c: Seq<Q::Scalar>,
        m: usize,
        n: usize,
        r: usize,
        k: usize,
    |
        a.len() == m * k && b.len() == n * k && c.len() == r * k && m + n + r <= usize::MAX
            ==> answers_as::<Q>(
            mode,
            #[trigger] quant::stacked::<Q>(
                quant::stacked::<Q>(
                    quant::packed::<Q>(a, m, k),
                    quant::packed::<Q>(b, n, k),
                ),
                quant::packed::<Q>(c, r, k),
            ),
            a + b + c,
            m + n + r,
            k as int,
        )
}

/// That what the engine holds answers, row by row, as plain weights of width `k` do.
pub open spec fn answers_as<Q: Quantized>(
    mode: Q::Mode,
    matrix: Q::Matrix,
    weight: Seq<Q::Scalar>,
    n: int,
    k: int,
) -> bool {
    forall|x: Seq<Q::Scalar>, o: int|
        x.len() == k && 0 <= o < n ==> #[trigger] quant::proj::<Q>(mode, x, matrix, o as usize)
            == kernels::dot::<Q>(rows::row(weight, o, k), x, k)
}

/// Where packing loses nothing, a layer that was packed from its weights gives what the weights give.
pub proof fn law_packed_weights_run_as_plain_ones<'a, Q: Quantized>(
    config: MicrodecoderConfig<Q::Scalar>,
    weights: LayerWeights<'a, Q::Scalar>,
    packed: PackedLayer<Q>,
    cos: Seq<Q::Scalar>,
    sin: Seq<Q::Scalar>,
    hidden: Seq<Q::Scalar>,
    kv: KvRows<Q::Scalar>,
)
    requires
        packs_without_loss::<Q>(packed.mode),
        config.valid(),
        weights.fits(config),
        packed.layer.packs(config, weights),
        hidden.len() == config.hidden_size,
    ensures
        layer::state_of::<Q>(config, weights, Some(packed), cos, sin, hidden, kv)
            == layer::state_of::<Q>(config, weights, None, cos, sin, hidden, kv),
        layer::cache_of::<Q>(config, weights, Some(packed), cos, sin, hidden, kv)
            == layer::cache_of::<Q>(config, weights, None, cos, sin, hidden, kv),
{
    let mode = packed.mode;
    let wide = config.hidden_size;
    let inner = config.intermediate_size;
    assert(0 <= config.queries()) by (nonlinear_arith)
        requires
            config.queries() == config.num_q_heads * config.head_dim,
    ;
    assert(0 <= config.keys()) by (nonlinear_arith)
        requires
            config.keys() == config.num_kv_heads * config.head_dim,
    ;
    let queries = config.queries() as usize;
    let keys = config.keys() as usize;
    let q = weights.q_proj@;
    let k = weights.k_proj@;
    let v = weights.v_proj@;
    reveal(packs_without_loss);
    assert(config.queries() + config.keys() + config.keys() == config.queries() + 2 * config.keys());
    assert(answers_as::<Q>(
        mode,
        quant::stacked::<Q>(
            quant::stacked::<Q>(
                quant::packed::<Q>(q, queries, wide),
                quant::packed::<Q>(k, keys, wide),
            ),
            quant::packed::<Q>(v, keys, wide),
        ),
        q + k + v,
        queries + keys + keys,
        wide as int,
    ));
    assert(answers_as::<Q>(
        mode,
        quant::stacked::<Q>(
            quant::packed::<Q>(weights.gate_proj@, inner, wide),
            quant::packed::<Q>(weights.up_proj@, inner, wide),
        ),
        weights.gate_proj@ + weights.up_proj@,
        inner + inner,
        wide as int,
    ));
    assert(answers_as::<Q>(
        mode,
        quant::packed::<Q>(weights.o_proj@, wide, queries),
        weights.o_proj@,
        wide as int,
        queries as int,
    ));
    assert(answers_as::<Q>(
        mode,
        quant::packed::<Q>(weights.down_proj@, wide, inner),
        weights.down_proj@,
        wide as int,
        inner as int,
    ));
    law_the_packed_layer_stands_for_the_plain_one::<Q>(
        config,
        weights,
        packed,
        cos,
        sin,
        hidden,
        kv,
    );
}

/// Where packing loses nothing, the talker's packed matrices answer as its projections: query, key and
/// value stacked in this order, the output projection, the SwiGLU pair stacked in its order, and the
/// down projection.
pub proof fn law_packed_talker_layers_answer_as_their_weights<'a, Q: Quantized>(
    mode: Q::Mode,
    config: TalkerConfig<Q::Scalar>,
    weights: TalkerLayerWeights<'a, Q::Scalar>,
    packed: TalkerLayerQuant<Q>,
)
    requires
        packs_without_loss::<Q>(mode),
        config.valid(),
        weights.projections_fit(config),
        packed.packs(config, weights),
    ensures
        answers_as::<Q>(
            mode,
            packed.qkv.data(),
            weights.q_proj@ + weights.k_proj@ + weights.v_proj@,
            config.queries() + 2 * config.keys(),
            config.hidden_size as int,
        ),
        answers_as::<Q>(
            mode,
            packed.o_proj.data(),
            weights.o_proj@,
            config.hidden_size as int,
            config.queries(),
        ),
        answers_as::<Q>(
            mode,
            packed.gate_up.data(),
            weights.gate_proj@ + weights.up_proj@,
            2 * config.intermediate_size,
            config.hidden_size as int,
        ),
        answers_as::<Q>(
            mode,
            packed.down_proj.data(),
            weights.down_proj@,
            config.hidden_size as int,
            config.intermediate_size as int,
        ),
{
    config.lemma_widths();
    let wide = config.hidden_size;
    let inner = config.intermediate_size;
    let queries = config.queries() as usize;
    let keys = config.keys() as usize;
    let q = weights.q_proj@;
    let k = weights.k_proj@;
    let v = weights.v_proj@;
    reveal(packs_without_loss);
    assert(config.queries() + config.keys() + config.keys() == config.queries() + 2 * config.keys());
    assert(answers_as::<Q>(
        mode,
        quant::stacked::<Q>(
            quant::stacked::<Q>(
                quant::packed::<Q>(q, queries, wide),
                quant::packed::<Q>(k, keys, wide),
            ),
            quant::packed::<Q>(v, keys, wide),
        ),
        q + k + v,
        queries + keys + keys,
        wide as int,
    ));
    assert(answers_as::<Q>(
        mode,
        quant::stacked::<Q>(
            quant::packed::<Q>(weights.gate_proj@, inner, wide),
            quant::packed::<Q>(weights.up_proj@, inner, wide),
        ),
        weights.gate_proj@ + weights.up_proj@,
        inner + inner,
        wide as int,
    ));
    assert(answers_as::<Q>(
        mode,
        quant::packed::<Q>(weights.o_proj@, wide, queries),
        weights.o_proj@,
        wide as int,
        queries as int,
    ));
    assert(answers_as::<Q>(
        mode,
        quant::packed::<Q>(weights.down_proj@, wide, inner),
        weights.down_proj@,
        wide as int,
        inner as int,
    ));
}

/// With packed heads, the tokens whose coarse scores are among the best keep the scores of the plain
/// head, and every other token is out of reach; the coarse scores are the packed head's of the same
/// depth, on the same normed row.
pub proof fn law_packed_heads_only_choose_candidates<'a, Q: Quantized>(
    frame: FrameInputs<'a, Q>,
    heads: Seq<QuantizedMatrix<Q>>,
    mode: Q::Mode,
    head: int,
    hidden: Seq<Q::Scalar>,
    normed: Seq<Q::Scalar>,
    token: int,
    channel: int,
)
    requires
        algebra::units::<Q>(),
        frame.route matches Some(route) && route.heads == Some(heads) && route.mode == mode,
        0 <= head < RESIDUAL_DEPTHS,
        hidden.len() == frame.config.hidden_size,
        normed == microdecoder::micro_rms::<Q>(
            hidden,
            frame.weights.final_norm@,
            frame.config.rms_eps,
        ),
        frame.weights.heads@[head]@.len() == RESIDUAL_VOCAB * frame.config.hidden_size,
        0 <= token < RESIDUAL_VOCAB,
        singles_out::<Q>(
            rows::row(frame.weights.heads@[head]@, token, frame.config.hidden_size as int),
            channel,
        ),
    ensures
        ({
            let coarse = quant::projected::<Q>(mode, normed, heads[head], 0, 2_048);
            &&& frame.scores(head, hidden).len() == 2_048
            &&& frame::candidates_of::<Q>(coarse)[token] ==> frame.scores(head, hidden)[token]
                == normed[channel]
            &&& !frame::candidates_of::<Q>(coarse)[token] ==> frame.scores(head, hidden)[token]
                == arith::cst::<Q>(Constant::NegativeInfinity)
        }),
{
    kernel_laws::law_matvec_reads_its_row::<Q>(
        frame.weights.heads@[head]@,
        normed,
        RESIDUAL_VOCAB as int,
        token,
        channel,
    );
}

/// Queries, keys and values each read the normed row through their own projection: where the weights of
/// a lane single out one channel, the lane is that channel's normed value. Each query head is then
/// normed and rotated.
pub proof fn law_projections_read_the_normed_row<'a, Q: Quantized>(
    config: MicrodecoderConfig<Q::Scalar>,
    weights: LayerWeights<'a, Q::Scalar>,
    cos: Seq<Q::Scalar>,
    sin: Seq<Q::Scalar>,
    hidden: Seq<Q::Scalar>,
    normed: Seq<Q::Scalar>,
    lane: int,
    source: int,
    head: int,
)
    requires
        algebra::units::<Q>(),
        weights.fits(config),
        hidden.len() == config.hidden_size,
        normed == microdecoder::micro_rms::<Q>(hidden, weights.input_norm@, config.rms_eps),
        0 <= head < config.num_q_heads,
    ensures
        0 <= lane < config.queries() && singles_out::<Q>(
            rows::row(weights.q_proj@, lane, config.hidden_size as int),
            source,
        ) ==> layer::q_row::<Q>(config, weights, None, normed)[lane] == normed[source],
        0 <= lane < config.keys() && singles_out::<Q>(
            rows::row(weights.k_proj@, lane, config.hidden_size as int),
            source,
        ) ==> layer::k_row::<Q>(config, weights, None, normed)[lane] == normed[source],
        0 <= lane < config.keys() && singles_out::<Q>(
            rows::row(weights.v_proj@, lane, config.hidden_size as int),
            source,
        ) ==> layer::v_row::<Q>(config, weights, None, normed)[lane] == normed[source],
        rows::row(
            layer::query_of::<Q>(config, weights, None, cos, sin, hidden),
            head,
            config.head_dim as int,
        ) == kernels::rope_of::<Q>(
            microdecoder::micro_rms::<Q>(
                rows::row(
                    layer::q_row::<Q>(config, weights, None, normed),
                    head,
                    config.head_dim as int,
                ),
                weights.q_norm@,
                config.rms_eps,
            ),
            cos,
            sin,
        ),
{
    let wide = config.hidden_size as int;
    if 0 <= lane < config.queries() && singles_out::<Q>(
        rows::row(weights.q_proj@, lane, wide),
        source,
    ) {
        kernel_laws::law_matvec_reads_its_row::<Q>(
            weights.q_proj@,
            normed,
            config.queries(),
            lane,
            source,
        );
    }
    if 0 <= lane < config.keys() && singles_out::<Q>(
        rows::row(weights.k_proj@, lane, wide),
        source,
    ) {
        kernel_laws::law_matvec_reads_its_row::<Q>(
            weights.k_proj@,
            normed,
            config.keys(),
            lane,
            source,
        );
    }
    if 0 <= lane < config.keys() && singles_out::<Q>(
        rows::row(weights.v_proj@, lane, wide),
        source,
    ) {
        kernel_laws::law_matvec_reads_its_row::<Q>(
            weights.v_proj@,
            normed,
            config.keys(),
            lane,
            source,
        );
    }
    assert(0 <= config.queries()) by (nonlinear_arith)
        requires
            config.queries() == config.num_q_heads * config.head_dim,
    ;
    law_heads_are_normed_then_rotated::<Q>(
        layer::q_row::<Q>(config, weights, None, normed),
        config.num_q_heads as int,
        config.head_dim as int,
        weights.q_norm@,
        config.rms_eps,
        cos,
        sin,
        head,
    );
}

/// Where packing loses nothing, a packed layer caches what the plain layer caches.
proof fn lemma_cached_alike<'a, Q: Quantized>(
    config: MicrodecoderConfig<Q::Scalar>,
    weights: LayerWeights<'a, Q::Scalar>,
    packed: PackedLayer<Q>,
    rope: RopeTable<Q>,
    x: Seq<Seq<Q::Scalar>>,
    n: int,
)
    requires
        packs_without_loss::<Q>(packed.mode),
        config.valid(),
        weights.fits(config),
        packed.layer.packs(config, weights),
        rows::uniform(x, config.hidden_size as int),
        0 <= n <= x.len(),
    ensures
        layer::cache_after::<Q>(config, weights, Some(packed), rope, x, n)
            == layer::cache_after::<Q>(config, weights, None, rope, x, n),
    decreases n,
{
    if n > 0 {
        lemma_cached_alike::<Q>(config, weights, packed, rope, x, n - 1);
        assert(x[n - 1].len() == config.hidden_size);
        law_packed_weights_run_as_plain_ones::<Q>(
            config,
            weights,
            packed,
            rope.cosines(n - 1),
            rope.sines(n - 1),
            x[n - 1],
            layer::cache_after::<Q>(config, weights, None, rope, x, n - 1),
        );
    }
}

/// Arming the packed route changes nothing where packing loses nothing: a frame whose layers were packed
/// from its weights leaves the stack as the plain frame does, layer by layer.
pub proof fn law_arming_changes_no_row<'a, Q: Quantized>(
    plain: FrameInputs<'a, Q>,
    armed: FrameInputs<'a, Q>,
    route: PackedRoute<Q>,
    x: Seq<Seq<Q::Scalar>>,
    l: int,
)
    requires
        packs_without_loss::<Q>(route.mode),
        plain.fits(),
        plain.route is None,
        armed == (FrameInputs { route: Some(route), ..plain }),
        forall|i: int|
            0 <= i < plain.config.num_layers ==> (#[trigger] route.layers[i]).packs(
                plain.config,
                plain.weights.layers@[i],
            ),
        rows::uniform(x, plain.config.hidden_size as int),
        0 <= l <= plain.config.num_layers,
    ensures
        armed.stack_rows(x, l) == plain.stack_rows(x, l),
    decreases l,
{
    if l > 0 {
        law_arming_changes_no_row::<Q>(plain, armed, route, x, l - 1);
        let before = plain.stack_rows(x, l - 1);
        lemma_stack_uniform::<Q>(plain, x, l - 1);
        let config = plain.config;
        let weights = plain.weights.layers@[l - 1];
        let packed = PackedLayer { layer: route.layers[l - 1], mode: route.mode };
        assert(route.layers[l - 1].packs(config, weights));
        assert(weights.fits(config));
        let a = armed.stack_rows(x, l);
        let b = plain.stack_rows(x, l);
        assert(armed.body(l - 1) == Some(packed));
        assert forall|p: int| 0 <= p < before.len() implies #[trigger] a[p] == b[p] by {
            assert(before[p].len() == config.hidden_size);
            lemma_cached_alike::<Q>(config, weights, packed, plain.rope, before, p);
            law_packed_weights_run_as_plain_ones::<Q>(
                config,
                weights,
                packed,
                plain.rope.cosines(p),
                plain.rope.sines(p),
                before[p],
                layer::cache_after::<Q>(config, weights, None, plain.rope, before, p),
            );
        }
        assert(a =~= b);
    }
}

} // verus!
