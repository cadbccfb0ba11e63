//! What the pre-transformer computes, said without the way it computes it.
use vstd::prelude::*;
use crate::algebra;
use crate::algebra::{minus, one, over, plus, silent, singles_out, sum_over, times, zero};
use crate::arith;
use crate::arith::{Arithmetic, Binary, Constant, Reduction, Unary};
use crate::codec::transformer;
use crate::codec::transformer::{CodecPreTransformerWeights, CodecTransformerLayerWeights};
use crate::codec::CodecConfig;
use crate::kernel_laws;
use crate::kernels;
use crate::kernels::KvRows;
use crate::rows;

verus! {

/// RMSNorm divides by the root of the mean square. With `root` the square root of the mean of the
/// squares and epsilon, a normed value under weight one, times the root, is the value; weight zero
/// leaves nothing.
pub proof fn law_rms_norm_divides_by_the_root<A: Arithmetic>(
    x: Seq<A::Scalar>,
    weight: Seq<A::Scalar>,
    eps: A::Scalar,
    root: A::Scalar,
    i: int,
)
    requires
        algebra::units::<A>(),
        algebra::reduces::<A>(),
        weight.len() == x.len(),
        0 <= i < x.len(),
        root == arith::un::<A>(
            Unary::Sqrt,
            plus::<A>(
                over::<A>(
                    sum_over::<A>(|j: int| times::<A>(x[j], x[j]), x.len() as int),
                    arith::num::<A>(x.len() as usize),
                ),
                eps,
            ),
        ),
        forall|v: A::Scalar|
            times::<A>(#[trigger] times::<A>(v, arith::un::<A>(Unary::Recip, root)), root) == v,
    ensures
        transformer::rms_of::<A>(x, weight, eps).len() == x.len(),
        weight[i] == one::<A>() ==> times::<A>(transformer::rms_of::<A>(x, weight, eps)[i], root)
            == x[i],
        weight[i] == zero::<A>() ==> transformer::rms_of::<A>(x, weight, eps)[i] == zero::<A>(),
{
    reveal(algebra::reduces);
    let square = |j: int| times::<A>(x[j], x[j]);
    assert(arith::red::<A>(Reduction::SquareSum, x, x, None) == plus::<A>(
        zero::<A>(),
        sum_over::<A>(square, x.len() as int),
    ));
    assert(times::<A>(times::<A>(x[i], arith::un::<A>(Unary::Recip, root)), root) == x[i]);
}

/// The angle of pair `index` at a position, times the base to the power of `2 index / width`, is
/// the position.
pub proof fn law_angles_fall_with_the_pair<A: Arithmetic>(
    position: usize,
    index: int,
    width: usize,
    step: A::Scalar,
)
    requires
        step == arith::bin::<A>(
            Binary::Pow,
            arith::cst::<A>(Constant::CodecRopeTheta),
            over::<A>(arith::num::<A>((2 * index) as usize), arith::num::<A>(width)),
        ),
        forall|v: A::Scalar|
            times::<A>(#[trigger] times::<A>(v, arith::un::<A>(Unary::Recip, step)), step) == v,
    ensures
        times::<A>(transformer::codec_angle::<A>(position, index, width), step) == arith::num::<A>(
            position,
        ),
{
    let p = arith::num::<A>(position);
    assert(times::<A>(times::<A>(p, arith::un::<A>(Unary::Recip, step)), step) == p);
}

/// Both halves of a rotary row hold the same angles.
pub proof fn law_rotary_halves_agree<A: Arithmetic>(op: Unary, position: usize, width: usize, i: int)
    requires
        width % 2 == 0,
        0 <= i < width as int / 2,
    ensures
        transformer::codec_rope_row::<A>(op, position, width).len() == width,
        transformer::codec_rope_row::<A>(op, position, width)[i] == arith::un::<A>(
            op,
            transformer::codec_angle::<A>(position, i, width),
        ),
        transformer::codec_rope_row::<A>(op, position, width)[i + width as int / 2]
            == transformer::codec_rope_row::<A>(op, position, width)[i],
{
}

/// A layer whose two scales are silent changes nothing.
pub proof fn law_silent_scales_leave_the_state<'a, A: Arithmetic>(
    config: CodecConfig<A::Scalar>,
    weights: CodecTransformerLayerWeights<'a, A::Scalar>,
    position: usize,
    state: Seq<A::Scalar>,
    kv: KvRows<A::Scalar>,
)
    requires
        algebra::units::<A>(),
        state.len() == config.transformer_hidden_dim,
        weights.self_attn_layer_scale@.len() == state.len(),
        weights.mlp_layer_scale@.len() == state.len(),
    ensures
        silent::<A>(weights.self_attn_layer_scale@) ==> transformer::step_attention::<A>(
            config,
            weights,
            position,
            state,
            kv,
        ) == state,
        silent::<A>(weights.mlp_layer_scale@) ==> transformer::step_state::<A>(
            config,
            weights,
            position,
            state,
            kv,
        ) == transformer::step_attention::<A>(config, weights, position, state, kv),
        silent::<A>(weights.self_attn_layer_scale@) && silent::<A>(weights.mlp_layer_scale@)
            ==> transformer::step_state::<A>(config, weights, position, state, kv) == state,
{
    let attended = transformer::step_attention::<A>(config, weights, position, state, kv);
    if silent::<A>(weights.self_attn_layer_scale@) {
        assert(attended =~= state);
    }
    if silent::<A>(weights.mlp_layer_scale@) {
        assert(transformer::step_state::<A>(config, weights, position, state, kv) =~= attended);
    }
}

/// The first position attends to itself alone. Where output `o` reads one attention lane and that
/// lane's value projection reads one normed channel, the residual state there gains that channel's
/// normed value times the layer's scale.
pub proof fn law_the_first_position_attends_to_itself<'a, A: Arithmetic>(
    config: CodecConfig<A::Scalar>,
    weights: CodecTransformerLayerWeights<'a, A::Scalar>,
    position: usize,
    state: Seq<A::Scalar>,
    o: int,
    lane: int,
    source: int,
)
    requires
        algebra::units::<A>(),
        algebra::reduces::<A>(),
        weights.fits(config),
        config.sliding_window > 0,
        state.len() == config.transformer_hidden_dim,
        0 <= o < state.len(),
        singles_out::<A>(rows::row(weights.o_proj@, o, config.attention_width()), lane),
        singles_out::<A>(
            rows::row(weights.v_proj@, lane, config.transformer_hidden_dim as int),
            source,
        ),
        forall|s: A::Scalar|
            #[trigger] arith::bin::<A>(Binary::Max, arith::cst::<A>(Constant::NegativeInfinity), s)
                == s,
        forall|s: A::Scalar|
            arith::un::<A>(Unary::Exp, #[trigger] minus::<A>(s, s)) == one::<A>(),
        over::<A>(one::<A>(), one::<A>()) == one::<A>(),
    ensures
        transformer::step_attention::<A>(
            config,
            weights,
            position,
            state,
            kernels::no_rows::<A::Scalar>(),
        )[o] == plus::<A>(
            state[o],
            times::<A>(
                weights.self_attn_layer_scale@[o],
                transformer::rms_of::<A>(
                    state,
                    weights.input_layernorm@,
                    config.rms_norm_eps,
                )[source],
            ),
        ),
{
    let none = kernels::no_rows::<A::Scalar>();
    let heads = config.attention_heads as int;
    let width = config.attention_head_dim as int;
    let wide = config.attention_width();
    let hidden = config.transformer_hidden_dim as int;
    let normed = transformer::rms_of::<A>(state, weights.input_layernorm@, config.rms_norm_eps);
    let key = transformer::projected_heads::<A>(config, weights.k_proj@, position, normed);
    let query = transformer::projected_heads::<A>(config, weights.q_proj@, position, normed);
    let value = kernels::linear_of::<A>(Reduction::Dense, normed, weights.v_proj@, None, wide);
    let cached = transformer::step_cache::<A>(config, weights, position, state, none);
    assert(0 <= wide) by (nonlinear_arith)
        requires
            wide == heads * width,
            0 <= heads,
            0 <= width,
    ;
    assert(cached.keys =~= seq![key]);
    assert(cached.values =~= seq![value]);
    lemma_projected_heads_len::<A>(config, weights.k_proj@, position, normed);
    lemma_projected_heads_len::<A>(config, weights.q_proj@, position, normed);
    let scale = arith::un::<A>(
        Unary::Recip,
        arith::un::<A>(Unary::Sqrt, arith::num::<A>(config.attention_head_dim)),
    );
    kernel_laws::law_heads_attend_one_position_whole::<A>(query, key, value, heads, width, scale);
    rows::lemma_row_bounds(o, hidden, wide);
    rows::lemma_row_bounds(lane, wide, hidden);
    kernel_laws::law_linear_reads_its_row::<A>(
        Reduction::Dense,
        normed,
        weights.v_proj@,
        None,
        wide,
        lane,
        source,
    );
    kernel_laws::law_linear_reads_its_row::<A>(
        Reduction::Dense,
        value,
        weights.o_proj@,
        None,
        hidden,
        o,
        lane,
    );
}

/// Projected and rotated heads fill the attention width.
proof fn lemma_projected_heads_len<A: Arithmetic>(
    config: CodecConfig<A::Scalar>,
    weight: Seq<A::Scalar>,
    position: usize,
    normed: Seq<A::Scalar>,
)
    ensures
        transformer::projected_heads::<A>(config, weight, position, normed).len()
            == config.attention_width(),
{
    let heads = config.attention_heads as int;
    let width = config.attention_head_dim as int;
    let wide = config.attention_width();
    assert(0 <= wide) by (nonlinear_arith)
        requires
            wide == heads * width,
            0 <= heads,
            0 <= width,
    ;
    let x = kernels::linear_of::<A>(Reduction::Dense, normed, weight, None, wide);
    let cos = transformer::codec_rope_row::<A>(Unary::Cos, position, config.attention_head_dim);
    let sin = transformer::codec_rope_row::<A>(Unary::Sin, position, config.attention_head_dim);
    if heads > 0 {
        kernel_laws::law_heads_rotate_apart::<A>(x, heads, width, cos, sin, 0);
    } else {
        let parts = Seq::new(
            heads as nat,
            |h: int| kernels::rope_of::<A>(rows::row(x, h, width), cos, sin),
        );
        rows::lemma_flatten_len(parts, width);
    }
}

/// What one position projects for its keys and its queries is rotated by the position's angles,
/// head by head.
pub proof fn law_keys_and_queries_are_rotated<A: Arithmetic>(
    config: CodecConfig<A::Scalar>,
    weight: Seq<A::Scalar>,
    position: usize,
    normed: Seq<A::Scalar>,
    head: int,
)
    requires
        0 <= head < config.attention_heads,
    ensures
        ({
            let width = config.attention_head_dim as int;
            let flat = kernels::linear_of::<A>(
                Reduction::Dense,
                normed,
                weight,
                None,
                config.attention_heads * config.attention_head_dim,
            );
            rows::row(
                transformer::projected_heads::<A>(config, weight, position, normed),
                head,
                width,
            ) == kernels::rope_of::<A>(
                rows::row(flat, head, width),
                transformer::codec_rope_row::<A>(Unary::Cos, position, config.attention_head_dim),
                transformer::codec_rope_row::<A>(Unary::Sin, position, config.attention_head_dim),
            )
        }),
{
    let heads = config.attention_heads as int;
    let width = config.attention_head_dim as int;
    assert(0 <= heads * width) by (nonlinear_arith)
        requires
            0 <= heads,
            0 <= width,
    ;
    let x = kernels::linear_of::<A>(Reduction::Dense, normed, weight, None, heads * width);
    kernel_laws::law_heads_rotate_apart::<A>(
        x,
        heads,
        width,
        transformer::codec_rope_row::<A>(Unary::Cos, position, config.attention_head_dim),
        transformer::codec_rope_row::<A>(Unary::Sin, position, config.attention_head_dim),
        head,
    );
}

/// A cache remembers. After a step its newest value row is what the position projected, its newest
/// key row is rotated, it holds the rows before them as they were, and the oldest leave once there
/// are more than the window holds.
pub proof fn law_the_cache_keeps_the_latest<'a, A: Arithmetic>(
    config: CodecConfig<A::Scalar>,
    weights: CodecTransformerLayerWeights<'a, A::Scalar>,
    position: usize,
    state: Seq<A::Scalar>,
    kv: KvRows<A::Scalar>,
    age: int,
)
    requires
        config.sliding_window > 0,
        kv.keys.len() == kv.values.len(),
        kv.keys.len() <= config.sliding_window,
    ensures
        ({
            let after = transformer::step_cache::<A>(config, weights, position, state, kv);
            let normed = transformer::rms_of::<A>(
                state,
                weights.input_layernorm@,
                config.rms_norm_eps,
            );
            let held = if kv.keys.len() < config.sliding_window {
                kv.keys.len() + 1
            } else {
                config.sliding_window as nat
            };
            &&& after.keys.len() == held
            &&& after.values.len() == held
            &&& after.keys[held - 1] == transformer::projected_heads::<A>(
                config,
                weights.k_proj@,
                position,
                normed,
            )
            &&& after.values[held - 1] == kernels::linear_of::<A>(
                Reduction::Dense,
                normed,
                weights.v_proj@,
                None,
                config.attention_width(),
            )
            &&& 1 <= age < held ==> after.keys[held - 1 - age] == kv.keys[kv.keys.len() - age]
            &&& 1 <= age < held ==> after.values[held - 1 - age] == kv.values[kv.keys.len() - age]
        }),
{
}

/// One path through a layer's feed-forward branch. Where output `o` reads one inner unit, whose gate
/// reads one normed channel and whose partner reads another, the residual state there gains, times
/// the layer's scale, the SiLU of the first times the second.
pub proof fn law_the_feed_forward_branch_follows_one_path<'a, A: Arithmetic>(
    config: CodecConfig<A::Scalar>,
    weights: CodecTransformerLayerWeights<'a, A::Scalar>,
    position: usize,
    state: Seq<A::Scalar>,
    kv: KvRows<A::Scalar>,
    o: int,
    unit: int,
    gate: int,
    up: int,
)
    requires
        algebra::units::<A>(),
        algebra::reduces::<A>(),
        weights.fits(config),
        state.len() == config.transformer_hidden_dim,
        0 <= o < state.len(),
        singles_out::<A>(
            rows::row(weights.down_proj@, o, config.transformer_intermediate_dim as int),
            unit,
        ),
        singles_out::<A>(rows::row(weights.gate_proj@, unit, state.len() as int), gate),
        singles_out::<A>(rows::row(weights.up_proj@, unit, state.len() as int), up),
    ensures
        ({
            let attended = transformer::step_attention::<A>(config, weights, position, state, kv);
            let normed = transformer::rms_of::<A>(
                attended,
                weights.post_attention_layernorm@,
                config.rms_norm_eps,
            );
            transformer::step_state::<A>(config, weights, position, state, kv)[o] == plus::<A>(
                attended[o],
                times::<A>(
                    weights.mlp_layer_scale@[o],
                    times::<A>(kernels::silu_of::<A>(normed[gate]), normed[up]),
                ),
            )
        }),
{
    let hidden = config.transformer_hidden_dim as int;
    let inner = config.transformer_intermediate_dim as int;
    let attended = transformer::step_attention::<A>(config, weights, position, state, kv);
    let normed = transformer::rms_of::<A>(
        attended,
        weights.post_attention_layernorm@,
        config.rms_norm_eps,
    );
    let gates = kernels::linear_of::<A>(Reduction::Dense, normed, weights.gate_proj@, None, inner);
    let ups = kernels::linear_of::<A>(Reduction::Dense, normed, weights.up_proj@, None, inner);
    rows::lemma_row_bounds(o, hidden, inner);
    rows::lemma_row_bounds(unit, inner, hidden);
    kernel_laws::law_linear_reads_its_row::<A>(
        Reduction::Dense,
        normed,
        weights.gate_proj@,
        None,
        inner,
        unit,
        gate,
    );
    kernel_laws::law_linear_reads_its_row::<A>(
        Reduction::Dense,
        normed,
        weights.up_proj@,
        None,
        inner,
        unit,
        up,
    );
    kernel_laws::law_linear_reads_its_row::<A>(
        Reduction::Dense,
        kernels::swiglu_of::<A>(gates, ups),
        weights.down_proj@,
        None,
        hidden,
        o,
        unit,
    );
}

/// Every layer counts: where the layers after layer `last` are silent, the state that leaves the
/// stack is what that layer made of the state that reached it.
pub proof fn law_every_layer_counts<'a, A: Arithmetic>(
    config: CodecConfig<A::Scalar>,
    weights: CodecPreTransformerWeights<'a, A::Scalar>,
    position: usize,
    input: Seq<A::Scalar>,
    kv: Seq<KvRows<A::Scalar>>,
    last: int,
    n: int,
)
    requires
        algebra::units::<A>(),
        weights.fits(config),
        0 <= last < n <= weights.layers@.len(),
        forall|l: int|
            last < l < n ==> {
                &&& silent::<A>((#[trigger] weights.layers@[l]).self_attn_layer_scale@)
                &&& silent::<A>(weights.layers@[l].mlp_layer_scale@)
            },
    ensures
        transformer::layers_state::<A>(config, weights, position, input, kv, n)
            == transformer::step_state::<A>(
            config,
            weights.layers@[last],
            position,
            transformer::layers_state::<A>(config, weights, position, input, kv, last),
            kv[last],
        ),
    decreases n,
{
    if n > last + 1 {
        law_every_layer_counts::<A>(config, weights, position, input, kv, last, n - 1);
        let before = transformer::layers_state::<A>(config, weights, position, input, kv, n - 1);
        assert(weights.layers@[n - 1].fits(config));
        lemma_layers_len::<A>(config, weights, position, input, kv, n - 1);
        law_silent_scales_leave_the_state::<A>(
            config,
            weights.layers@[n - 1],
            position,
            before,
            kv[n - 1],
        );
    }
}

/// The residual state keeps its width.
proof fn lemma_layers_len<'a, A: Arithmetic>(
    config: CodecConfig<A::Scalar>,
    weights: CodecPreTransformerWeights<'a, A::Scalar>,
    position: usize,
    input: Seq<A::Scalar>,
    kv: Seq<KvRows<A::Scalar>>,
    n: int,
)
    ensures
        transformer::layers_state::<A>(config, weights, position, input, kv, n).len()
            == config.transformer_hidden_dim,
    decreases n,
{
    if n > 0 {
        lemma_layers_len::<A>(config, weights, position, input, kv, n - 1);
    }
}

/// A frame enters through the input projection and leaves, normed, through the output projection.
/// Where output `o` reads one hidden channel, it is that channel of the normed state on top of its
/// bias; and where a hidden channel reads one input value, the state that reaches the first layer
/// is that value on top of its bias.
pub proof fn law_frames_enter_and_leave_projected<'a, A: Arithmetic>(
    config: CodecConfig<A::Scalar>,
    weights: CodecPreTransformerWeights<'a, A::Scalar>,
    position: usize,
    input: Seq<A::Scalar>,
    kv: Seq<KvRows<A::Scalar>>,
    o: int,
    channel: int,
    source: int,
)
    requires
        algebra::units::<A>(),
        algebra::reduces::<A>(),
        weights.fits(config),
        input.len() == config.transformer_latent_dim,
        0 <= o < config.transformer_latent_dim,
        0 <= channel < config.transformer_hidden_dim,
        singles_out::<A>(
            rows::row(weights.output_proj@, o, config.transformer_hidden_dim as int),
            channel,
        ),
        singles_out::<A>(rows::row(weights.input_proj@, channel, input.len() as int), source),
    ensures
        ({
            let left = transformer::layers_state::<A>(
                config,
                weights,
                position,
                input,
                kv,
                weights.layers@.len() as int,
            );
            &&& transformer::frame_output::<A>(config, weights, position, input, kv)[o] == plus::<
                A,
            >(
                weights.output_proj_bias@[o],
                transformer::rms_of::<A>(left, weights.final_norm@, config.rms_norm_eps)[channel],
            )
            &&& transformer::layers_state::<A>(config, weights, position, input, kv, 0)[channel]
                == plus::<A>(weights.input_proj_bias@[channel], input[source])
        }),
{
    let hidden = config.transformer_hidden_dim as int;
    let latent = config.transformer_latent_dim as int;
    let layers = weights.layers@.len() as int;
    let left = transformer::layers_state::<A>(config, weights, position, input, kv, layers);
    lemma_layers_len::<A>(config, weights, position, input, kv, layers);
    kernel_laws::law_linear_reads_its_row::<A>(
        Reduction::Dense,
        transformer::rms_of::<A>(left, weights.final_norm@, config.rms_norm_eps),
        weights.output_proj@,
        Some(weights.output_proj_bias@),
        latent,
        o,
        channel,
    );
    kernel_laws::law_linear_reads_its_row::<A>(
        Reduction::Dense,
        input,
        weights.input_proj@,
        Some(weights.input_proj_bias@),
        hidden,
        channel,
        source,
    );
}

/// Each frame runs at its own position, on the caches that the frames before it have left: frame
/// `t` of a packet that starts at `start` runs at `start + t`.
pub proof fn law_frames_run_at_their_positions<'a, A: Arithmetic>(
    config: CodecConfig<A::Scalar>,
    weights: CodecPreTransformerWeights<'a, A::Scalar>,
    start: int,
    x: Seq<Seq<A::Scalar>>,
    kv: Seq<KvRows<A::Scalar>>,
    t: int,
    left: Seq<KvRows<A::Scalar>>,
    position: usize,
)
    requires
        0 <= t < x.len(),
        position == start + t,
        left == transformer::caches_after::<A>(config, weights, start, x, kv, t),
    ensures
        transformer::transformed::<A>(config, weights, start, x, kv).len() == x.len(),
        transformer::transformed::<A>(config, weights, start, x, kv)[t]
            == transformer::frame_output::<A>(config, weights, position, x[t], left),
        transformer::caches_after::<A>(config, weights, start, x, kv, 0) == kv,
        transformer::caches_after::<A>(config, weights, start, x, kv, t + 1)
            == transformer::frame_caches::<A>(config, weights, position, x[t], left),
        forall|l: int|
            0 <= l < kv.len() && left.len() == kv.len()
                ==> #[trigger] transformer::frame_caches::<A>(
                config,
                weights,
                position,
                x[t],
                left,
            )[l] == transformer::step_cache::<A>(
                config,
                weights.layers@[l],
                position,
                transformer::layers_state::<A>(config, weights, position, x[t], left, l),
                left[l],
            ),
{
}

/// A position attends, head by head, over everything cached and itself. Where output `o` reads one lane
/// of one head, the residual state there gains, times the layer's scale, that lane of the head's
/// attention: the rotated query of the normed state over the rotated keys and the plain values of the
/// window, with one over the root of the head's width as its scale.
pub proof fn law_positions_attend_over_the_window<'a, A: Arithmetic>(
    config: CodecConfig<A::Scalar>,
    weights: CodecTransformerLayerWeights<'a, A::Scalar>,
    position: usize,
    state: Seq<A::Scalar>,
    kv: KvRows<A::Scalar>,
    o: int,
    head: int,
    lane: int,
    scale: A::Scalar,
)
    requires
        algebra::units::<A>(),
        algebra::reduces::<A>(),
        weights.fits(config),
        state.len() == config.transformer_hidden_dim,
        0 <= o < state.len(),
        0 <= head < config.attention_heads,
        0 <= lane < config.attention_head_dim,
        singles_out::<A>(
            rows::row(weights.o_proj@, o, config.attention_width()),
            head * config.attention_head_dim + lane,
        ),
        scale == arith::un::<A>(
            Unary::Recip,
            arith::un::<A>(Unary::Sqrt, arith::num::<A>(config.attention_head_dim)),
        ),
    ensures
        ({
            let width = config.attention_head_dim as int;
            let normed = transformer::rms_of::<A>(
                state,
                weights.input_layernorm@,
                config.rms_norm_eps,
            );
            let query = transformer::projected_heads::<A>(
                config,
                weights.q_proj@,
                position,
                normed,
            );
            let cached = transformer::step_cache::<A>(config, weights, position, state, kv);
            transformer::step_attention::<A>(config, weights, position, state, kv)[o] == plus::<A>(
                state[o],
                times::<A>(
                    weights.self_attn_layer_scale@[o],
                    kernels::attend_of::<A>(
                        rows::row(query, head, width),
                        kernels::head_rows(cached.keys, head * width, width),
                        kernels::head_rows(cached.values, head * width, width),
                        scale,
                    )[lane],
                ),
            )
        }),
{
    let heads = config.attention_heads as int;
    let width = config.attention_head_dim as int;
    let wide = config.attention_width();
    let hidden = config.transformer_hidden_dim as int;
    let normed = transformer::rms_of::<A>(state, weights.input_layernorm@, config.rms_norm_eps);
    let query = transformer::projected_heads::<A>(config, weights.q_proj@, position, normed);
    let cached = transformer::step_cache::<A>(config, weights, position, state, kv);
    lemma_projected_heads_len::<A>(config, weights.q_proj@, position, normed);
    rows::lemma_row_bounds(head, heads, width);
    let context = kernels::attend_heads_of::<A>(
        query,
        cached.keys,
        cached.values,
        heads,
        1,
        width,
        scale,
    );
    kernel_laws::law_heads_attend_apart::<A>(
        query,
        cached.keys,
        cached.values,
        heads,
        1,
        width,
        scale,
        head,
        head,
    );
    assert(rows::row(context, head, width)[lane] == context[head * width + lane]);
    rows::lemma_row_bounds(o, hidden, wide);
    kernel_laws::law_linear_reads_its_row::<A>(
        Reduction::Dense,
        context,
        weights.o_proj@,
        None,
        hidden,
        o,
        head * width + lane,
    );
}

} // verus!
