//! The sliding-window pre-transformer.
use vstd::prelude::*;
use crate::arith;
use crate::arith::{
    binary, constant, count, reduce, unary, Arithmetic, Binary, Constant, Reduction, Unary,
};
use crate::codec::conv;
use crate::codec::CodecConfig;
use crate::kernels;
use crate::kernels::{attend_heads, linear, rope_heads, scaled_residual, swiglu, KvRows};
use crate::rows;
use crate::rows::{join_rows, split_rows, store};

verus! {

/// The reciprocal root mean square of a row, epsilon under the root.
pub open spec fn rms_scale_of<A: Arithmetic>(x: Seq<A::Scalar>, eps: A::Scalar) -> A::Scalar {
    arith::un::<A>(
        Unary::Recip,
        arith::un::<A>(
            Unary::Sqrt,
            arith::bin::<A>(
                Binary::Add,
                arith::bin::<A>(
                    Binary::Div,
                    arith::red::<A>(Reduction::SquareSum, x, x, None),
                    arith::num::<A>(x.len() as usize),
                ),
                eps,
            ),
        ),
    )
}

/// Weight-only RMSNorm.
pub open spec fn rms_of<A: Arithmetic>(
    x: Seq<A::Scalar>,
    weight: Seq<A::Scalar>,
    eps: A::Scalar,
) -> Seq<A::Scalar> {
    Seq::new(
        x.len(),
        |i: int|
            arith::bin::<A>(
                Binary::Mul,
                arith::bin::<A>(Binary::Mul, x[i], rms_scale_of::<A>(x, eps)),
                weight[i],
            ),
    )
}

/// The rotary angle of one pair at one absolute position: the position times the pair's inverse
/// frequency.
pub open spec fn codec_angle<A: Arithmetic>(position: usize, index: int, width: usize) -> A::Scalar {
    arith::bin::<A>(
        Binary::Mul,
        arith::num::<A>(position),
        arith::un::<A>(
            Unary::Recip,
            arith::bin::<A>(
                Binary::Pow,
                arith::cst::<A>(Constant::CodecRopeTheta),
                arith::bin::<A>(
                    Binary::Div,
                    arith::num::<A>((2 * index) as usize),
                    arith::num::<A>(width),
                ),
            ),
        ),
    )
}

/// One rotary row: `op` of each pair's angle, the second half repeating the first.
pub open spec fn codec_rope_row<A: Arithmetic>(
    op: Unary,
    position: usize,
    width: usize,
) -> Seq<A::Scalar> {
    let half = width as int / 2;
    Seq::new(
        width as nat,
        |i: int|
            arith::un::<A>(
                op,
                codec_angle::<A>(
                    position,
                    if i < half {
                        i
                    } else {
                        i - half
                    },
                    width,
                ),
            ),
    )
}

/// Weight-only RMSNorm.
pub fn rms_norm<A: Arithmetic>(x: &[A::Scalar], weight: &[A::Scalar], eps: A::Scalar) -> (out: Vec<
    A::Scalar,
>)
    requires
        x@.len() == weight@.len(),
    ensures
        out@.len() == x@.len(),
        arith::pure::<A>() ==> out@ == rms_of::<A>(x@, weight@, eps),
{
    let squares = reduce::<A>(Reduction::SquareSum, x, x, None);
    let mean = binary::<A>(Binary::Div, squares, count::<A>(x.len()));
    let scale = unary::<A>(
        Unary::Recip,
        unary::<A>(Unary::Sqrt, binary::<A>(Binary::Add, mean, eps)),
    );
    proof {
        if arith::pure::<A>() {
            assert(x.len() == x@.len());
            assert(scale == rms_scale_of::<A>(x@, eps));
        }
    }
    let mut out: Vec<A::Scalar> = Vec::new();
    for i in 0..x.len()
        invariant
            x@.len() == weight@.len(),
            arith::pure::<A>() ==> scale == rms_scale_of::<A>(x@, eps),
            out@.len() == i,
            arith::pure::<A>() ==> forall|j: int|
                0 <= j < i ==> #[trigger] out@[j] == rms_of::<A>(x@, weight@, eps)[j],
    {
        let scaled = binary::<A>(Binary::Mul, x[i], scale);
        out.push(binary::<A>(Binary::Mul, scaled, weight[i]));
    }
    proof {
        if arith::pure::<A>() {
            assert(out@ =~= rms_of::<A>(x@, weight@, eps));
        }
    }
    out
}

/// One rotary row.
fn rope_row<A: Arithmetic>(op: Unary, position: usize, width: usize) -> (out: Vec<A::Scalar>)
    requires
        width % 2 == 0,
    ensures
        out@.len() == width,
        arith::pure::<A>() ==> out@ == codec_rope_row::<A>(op, position, width),
{
    let half: usize = width / 2;
    let mut out: Vec<A::Scalar> = Vec::new();
    for i in 0..width
        invariant
            half + half == width,
            half == width as int / 2,
            out@.len() == i,
            arith::pure::<A>() ==> forall|j: int|
                0 <= j < i ==> #[trigger] out@[j] == codec_rope_row::<A>(op, position, width)[j],
    {
        let index: usize = if i < half {
            i
        } else {
            i - half
        };
        let exponent = binary::<A>(Binary::Div, count::<A>(2 * index), count::<A>(width));
        let theta = constant::<A>(Constant::CodecRopeTheta);
        let frequency = unary::<A>(Unary::Recip, binary::<A>(Binary::Pow, theta, exponent));
        let angle = binary::<A>(Binary::Mul, count::<A>(position), frequency);
        out.push(unary::<A>(op, angle));
    }
    proof {
        if arith::pure::<A>() {
            assert(out@ =~= codec_rope_row::<A>(op, position, width));
        }
    }
    out
}

/// Fills the codec's rotary rows for one absolute position.
pub fn codec_rope_rows<A: Arithmetic>(
    position: usize,
    head_dim: usize,
    cos: &mut [A::Scalar],
    sin: &mut [A::Scalar],
)
    requires
        head_dim % 2 == 0,
        old(cos)@.len() == head_dim,
        old(sin)@.len() == head_dim,
    ensures
        final(cos)@.len() == head_dim,
        final(sin)@.len() == head_dim,
        arith::pure::<A>() ==> final(cos)@ == codec_rope_row::<A>(Unary::Cos, position, head_dim),
        arith::pure::<A>() ==> final(sin)@ == codec_rope_row::<A>(Unary::Sin, position, head_dim),
{
    store(cos, rope_row::<A>(Unary::Cos, position, head_dim).as_slice());
    store(sin, rope_row::<A>(Unary::Sin, position, head_dim).as_slice());
}

/// One pre-transformer layer's borrowed weights.
#[derive(Clone, Copy, Debug)]
pub struct CodecTransformerLayerWeights<'a, S> {
    /// Input RMSNorm scale, `[hidden]`.
    pub input_layernorm: &'a [S],
    /// Query projection, `[attention, hidden]`, bias-free.
    pub q_proj: &'a [S],
    /// Key projection, `[attention, hidden]`, bias-free.
    pub k_proj: &'a [S],
    /// Value projection, `[attention, hidden]`, bias-free.
    pub v_proj: &'a [S],
    /// Attention output projection, `[hidden, attention]`, bias-free.
    pub o_proj: &'a [S],
    /// Learned scale on the attention branch, `[hidden]`.
    pub self_attn_layer_scale: &'a [S],
    /// Post-attention RMSNorm scale, `[hidden]`.
    pub post_attention_layernorm: &'a [S],
    /// SwiGLU gate projection, `[intermediate, hidden]`.
    pub gate_proj: &'a [S],
    /// SwiGLU up projection, `[intermediate, hidden]`.
    pub up_proj: &'a [S],
    /// SwiGLU down projection, `[hidden, intermediate]`.
    pub down_proj: &'a [S],
    /// Learned scale on the feed-forward branch, `[hidden]`.
    pub mlp_layer_scale: &'a [S],
}

impl<'a, S> CodecTransformerLayerWeights<'a, S> {
    /// That every weight has the shape the geometry gives it.
    pub open spec fn fits(&self, config: CodecConfig<S>) -> bool {
        let hidden = config.transformer_hidden_dim as int;
        let attention = config.attention_width();
        let inner = config.transformer_intermediate_dim as int;
        &&& self.input_layernorm@.len() == hidden
        &&& self.q_proj@.len() == attention * hidden
        &&& self.k_proj@.len() == attention * hidden
        &&& self.v_proj@.len() == attention * hidden
        &&& self.o_proj@.len() == hidden * attention
        &&& self.self_attn_layer_scale@.len() == hidden
        &&& self.post_attention_layernorm@.len() == hidden
        &&& self.gate_proj@.len() == inner * hidden
        &&& self.up_proj@.len() == inner * hidden
        &&& self.down_proj@.len() == hidden * inner
        &&& self.mlp_layer_scale@.len() == hidden
    }
}

/// Bounded per-layer attention state for causal codec decoding.
pub struct CodecKvCache<A: Arithmetic> {
    keys: Vec<Vec<A::Scalar>>,
    values: Vec<Vec<A::Scalar>>,
    width: usize,
    capacity: usize,
}

impl<A: Arithmetic> CodecKvCache<A> {
    /// The cached keys and values.
    pub closed spec fn kv(&self) -> KvRows<A::Scalar> {
        KvRows { keys: rows::deep(self.keys@), values: rows::deep(self.values@) }
    }

    /// Width of one cached row.
    pub closed spec fn row_width(&self) -> int {
        self.width as int
    }

    /// The most positions the cache holds.
    pub closed spec fn window(&self) -> int {
        self.capacity as int
    }

    /// As many keys as values, of the right width, and no more than the window.
    pub open spec fn wf(&self) -> bool {
        &&& self.kv().keys.len() == self.kv().values.len()
        &&& self.kv().keys.len() <= self.window()
        &&& 0 <= self.row_width() <= usize::MAX
        &&& 0 <= self.window() <= usize::MAX
        &&& rows::uniform(self.kv().keys, self.row_width())
        &&& rows::uniform(self.kv().values, self.row_width())
    }

    /// That the cache has the geometry of a configuration.
    pub open spec fn serves(&self, config: CodecConfig<A::Scalar>) -> bool {
        &&& self.wf()
        &&& self.row_width() == config.attention_width()
        &&& self.window() == config.sliding_window
    }

    /// An empty cache retaining at most the configured window.
    pub fn new(config: CodecConfig<A::Scalar>) -> (cache: Self)
        requires
            config.attention_width() <= usize::MAX,
        ensures
            cache.serves(config),
            cache.kv() == kernels::no_rows::<A::Scalar>(),
    {
        let cache = CodecKvCache {
            keys: Vec::new(),
            values: Vec::new(),
            width: config.attention_dim(),
            capacity: config.sliding_window,
        };
        proof {
            assert(cache.kv().keys =~= kernels::no_rows::<A::Scalar>().keys);
            assert(cache.kv().values =~= kernels::no_rows::<A::Scalar>().values);
        }
        cache
    }

    /// Number of live attention positions.
    pub fn len(&self) -> (n: usize)
        ensures
            n == self.kv().keys.len(),
    {
        self.keys.len()
    }

    /// Whether no position is live.
    pub fn is_empty(&self) -> (empty: bool)
        ensures
            empty == (self.kv().keys.len() == 0),
    {
        self.keys.len() == 0
    }

    /// Drops every position.
    pub fn clear(&mut self)
        requires
            old(self).wf(),
        ensures
            final(self).wf(),
            final(self).row_width() == old(self).row_width(),
            final(self).window() == old(self).window(),
            final(self).kv() == kernels::no_rows::<A::Scalar>(),
    {
        self.keys.clear();
        self.values.clear();
        proof {
            assert(self.kv().keys =~= kernels::no_rows::<A::Scalar>().keys);
            assert(self.kv().values =~= kernels::no_rows::<A::Scalar>().values);
        }
    }

    /// Appends one position, dropping the oldest when the window is full.
    fn push(&mut self, key: Vec<A::Scalar>, value: Vec<A::Scalar>)
        requires
            old(self).wf(),
            old(self).window() > 0,
            key@.len() == old(self).row_width(),
            value@.len() == old(self).row_width(),
        ensures
            final(self).wf(),
            final(self).row_width() == old(self).row_width(),
            final(self).window() == old(self).window(),
            final(self).kv() == kv_push(old(self).kv(), key@, value@, old(self).window()),
    {
        let ghost before = *self;
        if self.keys.len() == self.capacity {
            self.keys.remove(0);
            self.values.remove(0);
        }
        self.keys.push(key);
        self.values.push(value);
        proof {
            let want = kv_push(before.kv(), key@, value@, before.window());
            assert(self.kv().keys =~= want.keys);
            assert(self.kv().values =~= want.values);
            assert forall|i: int| 0 <= i < self.kv().keys.len() implies (
            #[trigger] self.kv().keys[i]).len() == self.row_width() by {
                let all = before.kv().keys.push(key@);
                assert(forall|j: int| 0 <= j < before.kv().keys.len() ==> before.kv().keys[j].len()
                    == before.row_width());
            }
            assert forall|i: int| 0 <= i < self.kv().values.len() implies (
            #[trigger] self.kv().values[i]).len() == self.row_width() by {
                assert(forall|j: int|
                    0 <= j < before.kv().values.len() ==> before.kv().values[j].len()
                        == before.row_width());
            }
        }
    }
}

/// A cache with one more position, keeping the latest `window`.
pub open spec fn kv_push<S>(kv: KvRows<S>, key: Seq<S>, value: Seq<S>, window: int) -> KvRows<S> {
    KvRows {
        keys: conv::latest(kv.keys.push(key), window),
        values: conv::latest(kv.values.push(value), window),
    }
}

/// The keys or values of one position, projected and rotated.
pub open spec fn projected_heads<A: Arithmetic>(
    config: CodecConfig<A::Scalar>,
    weight: Seq<A::Scalar>,
    position: usize,
    normed: Seq<A::Scalar>,
) -> Seq<A::Scalar> {
    kernels::rope_heads_of::<A>(
        kernels::linear_of::<A>(
            Reduction::Dense,
            normed,
            weight,
            None,
            config.attention_width(),
        ),
        config.attention_heads as int,
        config.attention_head_dim as int,
        codec_rope_row::<A>(Unary::Cos, position, config.attention_head_dim),
        codec_rope_row::<A>(Unary::Sin, position, config.attention_head_dim),
    )
}

/// The cache of one layer after one position.
pub open spec fn step_cache<'a, A: Arithmetic>(
    config: CodecConfig<A::Scalar>,
    weights: CodecTransformerLayerWeights<'a, A::Scalar>,
    position: usize,
    state: Seq<A::Scalar>,
    kv: KvRows<A::Scalar>,
) -> KvRows<A::Scalar> {
    let normed = rms_of::<A>(state, weights.input_layernorm@, config.rms_norm_eps);
    kv_push(
        kv,
        projected_heads::<A>(config, weights.k_proj@, position, normed),
        kernels::linear_of::<A>(
            Reduction::Dense,
            normed,
            weights.v_proj@,
            None,
            config.attention_width(),
        ),
        config.sliding_window as int,
    )
}

/// The residual state after the attention branch.
pub open spec fn step_attention<'a, A: Arithmetic>(
    config: CodecConfig<A::Scalar>,
    weights: CodecTransformerLayerWeights<'a, A::Scalar>,
    position: usize,
    state: Seq<A::Scalar>,
    kv: KvRows<A::Scalar>,
) -> Seq<A::Scalar> {
    let normed = rms_of::<A>(state, weights.input_layernorm@, config.rms_norm_eps);
    let cached = step_cache::<A>(config, weights, position, state, kv);
    let context = kernels::attend_heads_of::<A>(
        projected_heads::<A>(config, weights.q_proj@, position, normed),
        cached.keys,
        cached.values,
        config.attention_heads as int,
        1,
        config.attention_head_dim as int,
        arith::un::<A>(
            Unary::Recip,
            arith::un::<A>(Unary::Sqrt, arith::num::<A>(config.attention_head_dim)),
        ),
    );
    kernels::scaled_residual_of::<A>(
        state,
        weights.self_attn_layer_scale@,
        kernels::linear_of::<A>(
            Reduction::Dense,
            context,
            weights.o_proj@,
            None,
            config.transformer_hidden_dim as int,
        ),
    )
}

/// The residual state after both branches of one layer.
pub open spec fn step_state<'a, A: Arithmetic>(
    config: CodecConfig<A::Scalar>,
    weights: CodecTransformerLayerWeights<'a, A::Scalar>,
    position: usize,
    state: Seq<A::Scalar>,
    kv: KvRows<A::Scalar>,
) -> Seq<A::Scalar> {
    let attended = step_attention::<A>(config, weights, position, state, kv);
    let normed = rms_of::<A>(attended, weights.post_attention_layernorm@, config.rms_norm_eps);
    let inner = config.transformer_intermediate_dim as int;
    let activated = kernels::swiglu_of::<A>(
        kernels::linear_of::<A>(Reduction::Dense, normed, weights.gate_proj@, None, inner),
        kernels::linear_of::<A>(Reduction::Dense, normed, weights.up_proj@, None, inner),
    );
    kernels::scaled_residual_of::<A>(
        attended,
        weights.mlp_layer_scale@,
        kernels::linear_of::<A>(
            Reduction::Dense,
            activated,
            weights.down_proj@,
            None,
            config.transformer_hidden_dim as int,
        ),
    )
}

/// Runs one causal step of one layer, changing its residual state and its cache.
pub fn forward_codec_transformer_step<'a, A: Arithmetic>(
    config: CodecConfig<A::Scalar>,
    weights: CodecTransformerLayerWeights<'a, A::Scalar>,
    position: usize,
    state: &mut [A::Scalar],
    cache: &mut CodecKvCache<A>,
)
    requires
        old(state)@.len() == config.transformer_hidden_dim,
        old(cache).serves(config),
        config.sliding_window > 0,
        config.attention_head_dim % 2 == 0,
        weights.fits(config),
    ensures
        final(state)@.len() == old(state)@.len(),
        final(cache).serves(config),
        final(cache).kv().keys.len() == if old(cache).kv().keys.len() < config.sliding_window {
            old(cache).kv().keys.len() + 1
        } else {
            config.sliding_window as nat
        },
        arith::pure::<A>() ==> {
            &&& final(state)@ == step_state::<A>(
                config,
                weights,
                position,
                old(state)@,
                old(cache).kv(),
            )
            &&& final(cache).kv() == step_cache::<A>(
                config,
                weights,
                position,
                old(state)@,
                old(cache).kv(),
            )
        },
{
    let hidden: usize = config.transformer_hidden_dim;
    let heads: usize = config.attention_heads;
    let width: usize = config.attention_head_dim;
    let attention: usize = config.attention_dim();
    let inner: usize = config.transformer_intermediate_dim;
    let ghost start = state@;
    let ghost kept = cache.kv();

    let cos = rope_row::<A>(Unary::Cos, position, width);
    let sin = rope_row::<A>(Unary::Sin, position, width);
    let normed = rms_norm::<A>(state, weights.input_layernorm, config.rms_norm_eps);
    let query = linear::<A>(
        Reduction::Dense,
        normed.as_slice(),
        weights.q_proj,
        None,
        attention,
    );
    let key = linear::<A>(Reduction::Dense, normed.as_slice(), weights.k_proj, None, attention);
    let value = linear::<A>(Reduction::Dense, normed.as_slice(), weights.v_proj, None, attention);
    let query = rope_heads::<A>(query.as_slice(), heads, width, cos.as_slice(), sin.as_slice());
    let key = rope_heads::<A>(key.as_slice(), heads, width, cos.as_slice(), sin.as_slice());
    cache.push(key, value);
    proof {
        if arith::pure::<A>() {
            assert(cache.kv() == step_cache::<A>(config, weights, position, start, kept));
        }
    }

    let scale = unary::<A>(Unary::Recip, unary::<A>(Unary::Sqrt, count::<A>(width)));
    let context = attend_heads::<A>(
        query.as_slice(),
        &cache.keys,
        &cache.values,
        heads,
        1,
        width,
        heads,
        scale,
    );
    let branch = linear::<A>(Reduction::Dense, context.as_slice(), weights.o_proj, None, hidden);
    let attended = scaled_residual::<A>(state, weights.self_attn_layer_scale, branch.as_slice());
    proof {
        if arith::pure::<A>() {
            assert(attended@ == step_attention::<A>(config, weights, position, start, kept));
        }
    }

    let normed = rms_norm::<A>(
        attended.as_slice(),
        weights.post_attention_layernorm,
        config.rms_norm_eps,
    );
    let gate = linear::<A>(Reduction::Dense, normed.as_slice(), weights.gate_proj, None, inner);
    let up = linear::<A>(Reduction::Dense, normed.as_slice(), weights.up_proj, None, inner);
    let activated = swiglu::<A>(gate.as_slice(), up.as_slice());
    let branch = linear::<A>(
        Reduction::Dense,
        activated.as_slice(),
        weights.down_proj,
        None,
        hidden,
    );
    let finished = scaled_residual::<A>(
        attended.as_slice(),
        weights.mlp_layer_scale,
        branch.as_slice(),
    );
    store(state, finished.as_slice());
}

/// Borrowed pre-transformer weights around its causal layers.
#[derive(Clone, Copy, Debug)]
pub struct CodecPreTransformerWeights<'a, S> {
    /// Input projection, `[hidden, latent]`.
    pub input_proj: &'a [S],
    /// Input projection bias, `[hidden]`.
    pub input_proj_bias: &'a [S],
    /// The sliding-window layers, in order.
    pub layers: &'a [CodecTransformerLayerWeights<'a, S>],
    /// Final RMSNorm scale, `[hidden]`.
    pub final_norm: &'a [S],
    /// Output projection, `[latent, hidden]`.
    pub output_proj: &'a [S],
    /// Output projection bias, `[latent]`.
    pub output_proj_bias: &'a [S],
}

impl<'a, S> CodecPreTransformerWeights<'a, S> {
    /// That every weight has the shape the geometry gives it.
    pub open spec fn fits(&self, config: CodecConfig<S>) -> bool {
        let hidden = config.transformer_hidden_dim as int;
        let latent = config.transformer_latent_dim as int;
        &&& self.input_proj@.len() == hidden * latent
        &&& self.input_proj_bias@.len() == hidden
        &&& forall|i: int| 0 <= i < self.layers@.len() ==> (#[trigger] self.layers@[i]).fits(config)
        &&& self.final_norm@.len() == hidden
        &&& self.output_proj@.len() == latent * hidden
        &&& self.output_proj_bias@.len() == latent
        &&& self.layers@.len() > 0 ==> config.sliding_window > 0 && config.attention_head_dim % 2
            == 0
    }
}

/// The cached rows of every layer.
pub open spec fn kv_of<A: Arithmetic>(caches: Seq<CodecKvCache<A>>) -> Seq<KvRows<A::Scalar>> {
    Seq::new(caches.len(), |i: int| caches[i].kv())
}

/// One empty cache per layer.
pub open spec fn no_caches<S>(layers: int) -> Seq<KvRows<S>> {
    Seq::new(layers as nat, |i: int| kernels::no_rows::<S>())
}

/// The residual state of one frame after its first `n` layers.
pub open spec fn layers_state<'a, A: Arithmetic>(
    config: CodecConfig<A::Scalar>,
    weights: CodecPreTransformerWeights<'a, A::Scalar>,
    position: usize,
    input: Seq<A::Scalar>,
    kv: Seq<KvRows<A::Scalar>>,
    n: int,
) -> Seq<A::Scalar>
    decreases n,
{
    if n <= 0 {
        kernels::linear_of::<A>(
            Reduction::Dense,
            input,
            weights.input_proj@,
            Some(weights.input_proj_bias@),
            config.transformer_hidden_dim as int,
        )
    } else {
        step_state::<A>(
            config,
            weights.layers@[n - 1],
            position,
            layers_state::<A>(config, weights, position, input, kv, n - 1),
            kv[n - 1],
        )
    }
}

/// The output row of one frame.
pub open spec fn frame_output<'a, A: Arithmetic>(
    config: CodecConfig<A::Scalar>,
    weights: CodecPreTransformerWeights<'a, A::Scalar>,
    position: usize,
    input: Seq<A::Scalar>,
    kv: Seq<KvRows<A::Scalar>>,
) -> Seq<A::Scalar> {
    kernels::linear_of::<A>(
        Reduction::Dense,
        rms_of::<A>(
            layers_state::<A>(
                config,
                weights,
                position,
                input,
                kv,
                weights.layers@.len() as int,
            ),
            weights.final_norm@,
            config.rms_norm_eps,
        ),
        weights.output_proj@,
        Some(weights.output_proj_bias@),
        config.transformer_latent_dim as int,
    )
}

/// The caches after one frame: each layer has cached its own position.
pub open spec fn frame_caches<'a, A: Arithmetic>(
    config: CodecConfig<A::Scalar>,
    weights: CodecPreTransformerWeights<'a, A::Scalar>,
    position: usize,
    input: Seq<A::Scalar>,
    kv: Seq<KvRows<A::Scalar>>,
) -> Seq<KvRows<A::Scalar>> {
    Seq::new(
        kv.len(),
        |i: int|
            step_cache::<A>(
                config,
                weights.layers@[i],
                position,
                layers_state::<A>(config, weights, position, input, kv, i),
                kv[i],
            ),
    )
}

/// The caches after the first `n` frames of a packet.
pub open spec fn caches_after<'a, A: Arithmetic>(
    config: CodecConfig<A::Scalar>,
    weights: CodecPreTransformerWeights<'a, A::Scalar>,
    start: int,
    x: Seq<Seq<A::Scalar>>,
    kv: Seq<KvRows<A::Scalar>>,
    n: int,
) -> Seq<KvRows<A::Scalar>>
    decreases n,
{
    if n <= 0 {
        kv
    } else {
        frame_caches::<A>(
            config,
            weights,
            (start + n - 1) as usize,
            x[n - 1],
            caches_after::<A>(config, weights, start, x, kv, n - 1),
        )
    }
}

/// The output rows of a packet that starts at absolute position `start`.
pub open spec fn transformed<'a, A: Arithmetic>(
    config: CodecConfig<A::Scalar>,
    weights: CodecPreTransformerWeights<'a, A::Scalar>,
    start: int,
    x: Seq<Seq<A::Scalar>>,
    kv: Seq<KvRows<A::Scalar>>,
) -> Seq<Seq<A::Scalar>> {
    Seq::new(
        x.len(),
        |t: int|
            frame_output::<A>(
                config,
                weights,
                (start + t) as usize,
                x[t],
                caches_after::<A>(config, weights, start, x, kv, t),
            ),
    )
}

/// That every cache has the geometry of a configuration.
pub open spec fn all_serve<A: Arithmetic>(
    caches: Seq<CodecKvCache<A>>,
    config: CodecConfig<A::Scalar>,
) -> bool {
    forall|i: int| 0 <= i < caches.len() ==> (#[trigger] caches[i]).serves(config)
}

/// Runs one frame through every layer.
fn forward_frame<'a, A: Arithmetic>(
    config: CodecConfig<A::Scalar>,
    weights: &CodecPreTransformerWeights<'a, A::Scalar>,
    position: usize,
    input: &[A::Scalar],
    caches: &mut [CodecKvCache<A>],
) -> (out: Vec<A::Scalar>)
    requires
        weights.fits(config),
        input@.len() == config.transformer_latent_dim,
        old(caches)@.len() == weights.layers@.len(),
        all_serve(old(caches)@, config),
    ensures
        final(caches)@.len() == old(caches)@.len(),
        all_serve(final(caches)@, config),
        out@.len() == config.transformer_latent_dim,
        arith::pure::<A>() ==> {
            &&& out@ == frame_output::<A>(
                config,
                *weights,
                position,
                input@,
                kv_of(old(caches)@),
            )
            &&& kv_of(final(caches)@) == frame_caches::<A>(
                config,
                *weights,
                position,
                input@,
                kv_of(old(caches)@),
            )
        },
{
    let ghost kv = kv_of(caches@);
    let mut state = linear::<A>(
        Reduction::Dense,
        input,
        weights.input_proj,
        Some(weights.input_proj_bias),
        config.transformer_hidden_dim,
    );
    for i in 0..weights.layers.len()
        invariant
            weights.fits(config),
            caches@.len() == weights.layers@.len(),
            kv.len() == caches@.len(),
            all_serve(caches@, config),
            state@.len() == config.transformer_hidden_dim,
            forall|j: int| i <= j < caches@.len() ==> (#[trigger] caches@[j]).kv() == kv[j],
            arith::pure::<A>() ==> {
                &&& state@ == layers_state::<A>(
                    config,
                    *weights,
                    position,
                    input@,
                    kv,
                    i as int,
                )
                &&& forall|j: int|
                    0 <= j < i ==> (#[trigger] caches@[j]).kv() == step_cache::<A>(
                        config,
                        weights.layers@[j],
                        position,
                        layers_state::<A>(config, *weights, position, input@, kv, j),
                        kv[j],
                    )
            },
    {
        proof {
            assert(weights.layers@[i as int].fits(config));
            assert(caches@[i as int].serves(config));
        }
        let ghost before = caches@;
        forward_codec_transformer_step::<A>(
            config,
            weights.layers[i],
            position,
            state.as_mut_slice(),
            &mut caches[i],
        );
        proof {
            assert(forall|j: int| 0 <= j < caches@.len() && j != i ==> caches@[j] == before[j]);
            assert(all_serve(before, config));
            assert forall|j: int| 0 <= j < caches@.len() implies (#[trigger] caches@[j]).serves(
                config,
            ) by {
                if j != i {
                    assert(before[j].serves(config));
                }
            }
        }
    }
    proof {
        if arith::pure::<A>() {
            assert(kv_of(caches@) =~= frame_caches::<A>(config, *weights, position, input@, kv));
        }
    }
    let normed = rms_norm::<A>(state.as_slice(), weights.final_norm, config.rms_norm_eps);
    linear::<A>(
        Reduction::Dense,
        normed.as_slice(),
        weights.output_proj,
        Some(weights.output_proj_bias),
        config.transformer_latent_dim,
    )
}

/// Runs rows of codec latents through the pre-transformer.
pub fn transform_rows<'a, A: Arithmetic>(
    config: CodecConfig<A::Scalar>,
    weights: &CodecPreTransformerWeights<'a, A::Scalar>,
    start_position: usize,
    x: &Vec<Vec<A::Scalar>>,
    caches: &mut [CodecKvCache<A>],
) -> (out: Vec<Vec<A::Scalar>>)
    requires
        weights.fits(config),
        rows::uniform(rows::deep(x@), config.transformer_latent_dim as int),
        old(caches)@.len() == weights.layers@.len(),
        all_serve(old(caches)@, config),
        start_position + x@.len() <= usize::MAX,
    ensures
        final(caches)@.len() == old(caches)@.len(),
        all_serve(final(caches)@, config),
        out@.len() == x@.len(),
        rows::uniform(rows::deep(out@), config.transformer_latent_dim as int),
        arith::pure::<A>() ==> {
            &&& rows::deep(out@) == transformed::<A>(
                config,
                *weights,
                start_position as int,
                rows::deep(x@),
                kv_of(old(caches)@),
            )
            &&& kv_of(final(caches)@) == caches_after::<A>(
                config,
                *weights,
                start_position as int,
                rows::deep(x@),
                kv_of(old(caches)@),
                x@.len() as int,
            )
        },
{
    let ghost kv = kv_of(caches@);
    let ghost frames = rows::deep(x@);
    let mut out: Vec<Vec<A::Scalar>> = Vec::new();
    for t in 0..x.len()
        invariant
            weights.fits(config),
            frames == rows::deep(x@),
            rows::uniform(frames, config.transformer_latent_dim as int),
            caches@.len() == weights.layers@.len(),
            all_serve(caches@, config),
            start_position + x@.len() <= usize::MAX,
            out@.len() == t,
            forall|j: int|
                0 <= j < t ==> (#[trigger] out@[j])@.len() == config.transformer_latent_dim,
            arith::pure::<A>() ==> {
                &&& kv_of(caches@) == caches_after::<A>(
                    config,
                    *weights,
                    start_position as int,
                    frames,
                    kv,
                    t as int,
                )
                &&& forall|j: int|
                    0 <= j < t ==> (#[trigger] out@[j])@ == transformed::<A>(
                        config,
                        *weights,
                        start_position as int,
                        frames,
                        kv,
                    )[j]
            },
    {
        proof {
            assert(frames[t as int].len() == config.transformer_latent_dim);
            assert(frames[t as int] == x@[t as int]@);
        }
        let row = forward_frame::<A>(
            config,
            weights,
            start_position + t,
            x[t].as_slice(),
            caches,
        );
        out.push(row);
    }
    proof {
        if arith::pure::<A>() {
            assert(rows::deep(out@) =~= transformed::<A>(
                config,
                *weights,
                start_position as int,
                frames,
                kv,
            ));
        }
    }
    out
}

/// Decodes codec latents through the streaming pre-transformer.
///
/// `caches` carries over from packet to packet.
pub fn forward_codec_pre_transformer<'a, A: Arithmetic>(
    config: CodecConfig<A::Scalar>,
    weights: &CodecPreTransformerWeights<'a, A::Scalar>,
    start_position: usize,
    input: &[A::Scalar],
    frames: usize,
    caches: &mut [CodecKvCache<A>],
    output: &mut [A::Scalar],
)
    requires
        weights.fits(config),
        input@.len() == frames * config.transformer_latent_dim,
        old(output)@.len() == frames * config.transformer_latent_dim,
        old(caches)@.len() == weights.layers@.len(),
        all_serve(old(caches)@, config),
        start_position + frames <= usize::MAX,
    ensures
        final(caches)@.len() == old(caches)@.len(),
        all_serve(final(caches)@, config),
        final(output)@.len() == old(output)@.len(),
        arith::pure::<A>() ==> {
            &&& final(output)@ == transformed::<A>(
                config,
                *weights,
                start_position as int,
                rows::unstack(input@, frames as int, config.transformer_latent_dim as int),
                kv_of(old(caches)@),
            ).flatten()
            &&& kv_of(final(caches)@) == caches_after::<A>(
                config,
                *weights,
                start_position as int,
                rows::unstack(input@, frames as int, config.transformer_latent_dim as int),
                kv_of(old(caches)@),
                frames as int,
            )
        },
{
    let x = split_rows(input, frames, config.transformer_latent_dim);
    proof {
        assert(rows::deep(x@).len() == frames);
    }
    let y = transform_rows::<A>(config, weights, start_position, &x, caches);
    let flat = join_rows(&y);
    proof {
        rows::lemma_flatten_len(rows::deep(y@), config.transformer_latent_dim as int);
    }
    store(output, flat.as_slice());
}

/// Running a packet after a packet is running both at once: the rows come out the same, and the
/// caches are left the same.
pub proof fn law_transformer_packets<'a, A: Arithmetic>(
    config: CodecConfig<A::Scalar>,
    weights: CodecPreTransformerWeights<'a, A::Scalar>,
    start: int,
    past: Seq<Seq<A::Scalar>>,
    packet: Seq<Seq<A::Scalar>>,
    kv: Seq<KvRows<A::Scalar>>,
)
    requires
        0 <= start,
    ensures
        transformed::<A>(config, weights, start, past + packet, kv) == transformed::<A>(
            config,
            weights,
            start,
            past,
            kv,
        ) + transformed::<A>(
            config,
            weights,
            start + past.len(),
            packet,
            caches_after::<A>(config, weights, start, past, kv, past.len() as int),
        ),
        caches_after::<A>(
            config,
            weights,
            start,
            past + packet,
            kv,
            (past + packet).len() as int,
        ) == caches_after::<A>(
            config,
            weights,
            start + past.len(),
            packet,
            caches_after::<A>(config, weights, start, past, kv, past.len() as int),
            packet.len() as int,
        ),
{
    let both = past + packet;
    let mid = caches_after::<A>(config, weights, start, past, kv, past.len() as int);
    let whole = transformed::<A>(config, weights, start, both, kv);
    let first = transformed::<A>(config, weights, start, past, kv);
    let second = transformed::<A>(config, weights, start + past.len(), packet, mid);
    assert forall|t: int| 0 <= t < both.len() implies whole[t] == (first + second)[t] by {
        if t < past.len() {
            lemma_caches_prefix::<A>(config, weights, start, past, packet, kv, t);
        } else {
            lemma_caches_suffix::<A>(config, weights, start, past, packet, kv, t - past.len());
        }
    }
    assert(whole =~= first + second);
    lemma_caches_suffix::<A>(config, weights, start, past, packet, kv, packet.len() as int);
}

/// The caches after a prefix do not depend on what follows it.
proof fn lemma_caches_prefix<'a, A: Arithmetic>(
    config: CodecConfig<A::Scalar>,
    weights: CodecPreTransformerWeights<'a, A::Scalar>,
    start: int,
    past: Seq<Seq<A::Scalar>>,
    packet: Seq<Seq<A::Scalar>>,
    kv: Seq<KvRows<A::Scalar>>,
    n: int,
)
    requires
        n <= past.len(),
    ensures
        caches_after::<A>(config, weights, start, past + packet, kv, n) == caches_after::<A>(
            config,
            weights,
            start,
            past,
            kv,
            n,
        ),
    decreases n,
{
    if n > 0 {
        lemma_caches_prefix::<A>(config, weights, start, past, packet, kv, n - 1);
    }
}

/// The caches after a packet continue from the caches after what came before it.
proof fn lemma_caches_suffix<'a, A: Arithmetic>(
    config: CodecConfig<A::Scalar>,
    weights: CodecPreTransformerWeights<'a, A::Scalar>,
    start: int,
    past: Seq<Seq<A::Scalar>>,
    packet: Seq<Seq<A::Scalar>>,
    kv: Seq<KvRows<A::Scalar>>,
    n: int,
)
    requires
        0 <= n <= packet.len(),
    ensures
        caches_after::<A>(config, weights, start, past + packet, kv, past.len() + n)
            == caches_after::<A>(
            config,
            weights,
            start + past.len(),
            packet,
            caches_after::<A>(config, weights, start, past, kv, past.len() as int),
            n,
        ),
    decreases n,
{
    if n > 0 {
        lemma_caches_suffix::<A>(config, weights, start, past, packet, kv, n - 1);
    } else {
        lemma_caches_prefix::<A>(config, weights, start, past, packet, kv, past.len() as int);
    }
}

} // verus!
