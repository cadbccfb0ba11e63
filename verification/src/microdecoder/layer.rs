//! One microdecoder layer: a position at a time, or a whole frame at once.
//!
//! The body runs either on the plain weights or on their eight-bit packing. Norms, rotation,
//! attention and residual sums are the same in both, and running a frame at once only changes
//! the order in which independent rows are projected.
use vstd::prelude::*;
use vstd::slice::slice_subrange;
use crate::arith;
use crate::arith::{binary, constant, count, unary, Binary, Constant, Unary};
use crate::kernels;
use crate::kernels::{attend_heads, matvec, rope, swiglu, zip_with, KvRows};
use crate::microdecoder;
use crate::microdecoder::{rms_norm, MicrodecoderConfig, RopeTable, FRAME_POSITIONS};
use crate::quant;
use crate::quant::{Quantized, QuantizedMatrix};
use crate::rows;
use crate::rows::{join_rows, row_of, split_rows};

verus! {

/// That both the plain and the eight-bit kernels are functions of their arguments.
pub open spec fn exact<Q: Quantized>() -> bool {
    arith::pure::<Q>() && quant::pure_quant::<Q>()
}

/// One layer's weights, all bias-free.
#[derive(Clone, Copy, Debug)]
pub struct LayerWeights<'a, S> {
    /// Pre-attention RMSNorm weight, `[hidden]`.
    pub input_norm: &'a [S],
    /// Query projection, `[q_width, hidden]`.
    pub q_proj: &'a [S],
    /// Key projection, `[kv_width, hidden]`.
    pub k_proj: &'a [S],
    /// Value projection, `[kv_width, hidden]`.
    pub v_proj: &'a [S],
    /// Query head norm weight, `[head_dim]`.
    pub q_norm: &'a [S],
    /// Key head norm weight, `[head_dim]`.
    pub k_norm: &'a [S],
    /// Output projection, `[hidden, q_width]`.
    pub o_proj: &'a [S],
    /// Pre-MLP RMSNorm weight, `[hidden]`.
    pub post_attention_norm: &'a [S],
    /// SwiGLU gate projection, `[intermediate, hidden]`.
    pub gate_proj: &'a [S],
    /// SwiGLU up projection, `[intermediate, hidden]`.
    pub up_proj: &'a [S],
    /// SwiGLU down projection, `[hidden, intermediate]`.
    pub down_proj: &'a [S],
}

impl<'a, S> LayerWeights<'a, S> {
    /// That the norms have the shapes the geometry gives them.
    pub open spec fn norms_fit(&self, config: MicrodecoderConfig<S>) -> bool {
        &&& self.input_norm@.len() == config.hidden_size
        &&& self.q_norm@.len() == config.head_dim
        &&& self.k_norm@.len() == config.head_dim
        &&& self.post_attention_norm@.len() == config.hidden_size
    }

    /// That every weight has the shape the geometry gives it.
    pub open spec fn fits(&self, config: MicrodecoderConfig<S>) -> bool {
        let hidden = config.hidden_size as int;
        let inner = config.intermediate_size as int;
        &&& self.norms_fit(config)
        &&& self.q_proj@.len() == config.queries() * hidden
        &&& self.k_proj@.len() == config.keys() * hidden
        &&& self.v_proj@.len() == config.keys() * hidden
        &&& self.o_proj@.len() == hidden * config.queries()
        &&& self.gate_proj@.len() == inner * hidden
        &&& self.up_proj@.len() == inner * hidden
        &&& self.down_proj@.len() == hidden * inner
    }
}

/// One layer's projections, packed in eight bits.
pub struct MicroLayerQuant<Q: Quantized> {
    /// Query over key over value projection, `[q_width + 2 * kv_width, hidden]`.
    pub qkv: QuantizedMatrix<Q>,
    /// Output projection, `[hidden, q_width]`.
    pub o_proj: QuantizedMatrix<Q>,
    /// Gate over up projection, `[2 * intermediate, hidden]`.
    pub gate_up: QuantizedMatrix<Q>,
    /// Down projection, `[hidden, intermediate]`.
    pub down_proj: QuantizedMatrix<Q>,
}

impl<Q: Quantized> MicroLayerQuant<Q> {
    /// That every matrix has the shape the geometry gives it.
    pub open spec fn fits(&self, config: MicrodecoderConfig<Q::Scalar>) -> bool {
        &&& self.qkv.outputs() == config.queries() + 2 * config.keys()
        &&& self.qkv.inputs() == config.hidden_size
        &&& self.o_proj.outputs() == config.hidden_size
        &&& self.o_proj.inputs() == config.queries()
        &&& self.gate_up.outputs() == 2 * config.intermediate_size
        &&& self.gate_up.inputs() == config.hidden_size
        &&& self.down_proj.outputs() == config.hidden_size
        &&& self.down_proj.inputs() == config.intermediate_size
    }

    /// That the matrices are the packed projections of one layer.
    pub open spec fn packs<'a>(
        &self,
        config: MicrodecoderConfig<Q::Scalar>,
        weights: LayerWeights<'a, Q::Scalar>,
    ) -> bool {
        let hidden = config.hidden_size;
        let queries = config.queries() as usize;
        let keys = config.keys() as usize;
        let inner = config.intermediate_size;
        &&& self.qkv.data() == quant::stacked::<Q>(
            quant::stacked::<Q>(
                quant::packed::<Q>(weights.q_proj@, queries, hidden),
                quant::packed::<Q>(weights.k_proj@, keys, hidden),
            ),
            quant::packed::<Q>(weights.v_proj@, keys, hidden),
        )
        &&& self.o_proj.data() == quant::packed::<Q>(weights.o_proj@, hidden, queries)
        &&& self.gate_up.data() == quant::stacked::<Q>(
            quant::packed::<Q>(weights.gate_proj@, inner, hidden),
            quant::packed::<Q>(weights.up_proj@, inner, hidden),
        )
        &&& self.down_proj.data() == quant::packed::<Q>(weights.down_proj@, hidden, inner)
    }

    /// Packs one layer's projections.
    pub fn quantize<'a>(
        config: &MicrodecoderConfig<Q::Scalar>,
        weights: &LayerWeights<'a, Q::Scalar>,
    ) -> (layer: Self)
        requires
            config.valid(),
            weights.fits(*config),
        ensures
            layer.fits(*config),
            quant::pure_quant::<Q>() ==> layer.packs(*config, *weights),
    {
        proof {
            lemma_widths(*config);
        }
        let hidden: usize = config.hidden_size;
        let queries: usize = config.q_width();
        let keys: usize = config.kv_width();
        let inner: usize = config.intermediate_size;
        let q = QuantizedMatrix::<Q>::quantize(weights.q_proj, queries, hidden);
        let k = QuantizedMatrix::<Q>::quantize(weights.k_proj, keys, hidden);
        let v = QuantizedMatrix::<Q>::quantize(weights.v_proj, keys, hidden);
        let gate = QuantizedMatrix::<Q>::quantize(weights.gate_proj, inner, hidden);
        let up = QuantizedMatrix::<Q>::quantize(weights.up_proj, inner, hidden);
        MicroLayerQuant {
            qkv: q.concat_rows(&k).concat_rows(&v),
            o_proj: QuantizedMatrix::<Q>::quantize(weights.o_proj, hidden, queries),
            gate_up: gate.concat_rows(&up),
            down_proj: QuantizedMatrix::<Q>::quantize(weights.down_proj, hidden, inner),
        }
    }
}

/// The projection widths are natural numbers below their sum.
pub proof fn lemma_widths<S>(config: MicrodecoderConfig<S>)
    ensures
        0 <= config.queries(),
        0 <= config.keys(),
{
    assert(0 <= config.queries()) by (nonlinear_arith)
        requires
            config.queries() == config.num_q_heads * config.head_dim,
    ;
    assert(0 <= config.keys()) by (nonlinear_arith)
        requires
            config.keys() == config.num_kv_heads * config.head_dim,
    ;
}

/// The eight-bit body of one layer and the kernel that runs it, where the body is packed.
pub struct PackedLayer<Q: Quantized> {
    /// The packed projections.
    pub layer: MicroLayerQuant<Q>,
    /// The kernel that runs them.
    pub mode: Q::Mode,
}

/// The query row before its head norm.
pub open spec fn q_row<'a, Q: Quantized>(
    config: MicrodecoderConfig<Q::Scalar>,
    weights: LayerWeights<'a, Q::Scalar>,
    packed: Option<PackedLayer<Q>>,
    x: Seq<Q::Scalar>,
) -> Seq<Q::Scalar> {
    match packed {
        None => kernels::matvec_of::<Q>(weights.q_proj@, x, config.queries()),
        Some(p) => quant::projected::<Q>(p.mode, x, p.layer.qkv, 0, config.queries()),
    }
}

/// The key row before its head norm.
pub open spec fn k_row<'a, Q: Quantized>(
    config: MicrodecoderConfig<Q::Scalar>,
    weights: LayerWeights<'a, Q::Scalar>,
    packed: Option<PackedLayer<Q>>,
    x: Seq<Q::Scalar>,
) -> Seq<Q::Scalar> {
    match packed {
        None => kernels::matvec_of::<Q>(weights.k_proj@, x, config.keys()),
        Some(p) => quant::projected::<Q>(
            p.mode,
            x,
            p.layer.qkv,
            config.queries(),
            config.keys(),
        ),
    }
}

/// The value row, neither normed nor rotated.
pub open spec fn v_row<'a, Q: Quantized>(
    config: MicrodecoderConfig<Q::Scalar>,
    weights: LayerWeights<'a, Q::Scalar>,
    packed: Option<PackedLayer<Q>>,
    x: Seq<Q::Scalar>,
) -> Seq<Q::Scalar> {
    match packed {
        None => kernels::matvec_of::<Q>(weights.v_proj@, x, config.keys()),
        Some(p) => quant::projected::<Q>(
            p.mode,
            x,
            p.layer.qkv,
            config.queries() + config.keys(),
            config.keys(),
        ),
    }
}

/// The attention branch projected back to the model width.
pub open spec fn o_row<'a, Q: Quantized>(
    config: MicrodecoderConfig<Q::Scalar>,
    weights: LayerWeights<'a, Q::Scalar>,
    packed: Option<PackedLayer<Q>>,
    x: Seq<Q::Scalar>,
) -> Seq<Q::Scalar> {
    match packed {
        None => kernels::matvec_of::<Q>(weights.o_proj@, x, config.hidden_size as int),
        Some(p) => quant::projected::<Q>(
            p.mode,
            x,
            p.layer.o_proj,
            0,
            config.hidden_size as int,
        ),
    }
}

/// Gate values of the feed-forward branch.
pub open spec fn gate_row<'a, Q: Quantized>(
    config: MicrodecoderConfig<Q::Scalar>,
    weights: LayerWeights<'a, Q::Scalar>,
    packed: Option<PackedLayer<Q>>,
    x: Seq<Q::Scalar>,
) -> Seq<Q::Scalar> {
    match packed {
        None => kernels::matvec_of::<Q>(weights.gate_proj@, x, config.intermediate_size as int),
        Some(p) => quant::projected::<Q>(
            p.mode,
            x,
            p.layer.gate_up,
            0,
            config.intermediate_size as int,
        ),
    }
}

/// Up values of the feed-forward branch.
pub open spec fn up_row<'a, Q: Quantized>(
    config: MicrodecoderConfig<Q::Scalar>,
    weights: LayerWeights<'a, Q::Scalar>,
    packed: Option<PackedLayer<Q>>,
    x: Seq<Q::Scalar>,
) -> Seq<Q::Scalar> {
    match packed {
        None => kernels::matvec_of::<Q>(weights.up_proj@, x, config.intermediate_size as int),
        Some(p) => quant::projected::<Q>(
            p.mode,
            x,
            p.layer.gate_up,
            config.intermediate_size as int,
            config.intermediate_size as int,
        ),
    }
}

/// The feed-forward branch projected back to the model width.
pub open spec fn down_row<'a, Q: Quantized>(
    config: MicrodecoderConfig<Q::Scalar>,
    weights: LayerWeights<'a, Q::Scalar>,
    packed: Option<PackedLayer<Q>>,
    x: Seq<Q::Scalar>,
) -> Seq<Q::Scalar> {
    match packed {
        None => kernels::matvec_of::<Q>(weights.down_proj@, x, config.hidden_size as int),
        Some(p) => quant::projected::<Q>(
            p.mode,
            x,
            p.layer.down_proj,
            0,
            config.hidden_size as int,
        ),
    }
}

/// Every head normed, then rotated.
pub open spec fn normed_heads<Q: Quantized>(
    x: Seq<Q::Scalar>,
    heads: int,
    width: int,
    weight: Seq<Q::Scalar>,
    eps: Q::Scalar,
    cos: Seq<Q::Scalar>,
    sin: Seq<Q::Scalar>,
) -> Seq<Q::Scalar> {
    Seq::new(
        heads as nat,
        |h: int|
            kernels::rope_of::<Q>(
                microdecoder::micro_rms::<Q>(rows::row(x, h, width), weight, eps),
                cos,
                sin,
            ),
    ).flatten()
}

/// The query heads of one position.
pub open spec fn query_of<'a, Q: Quantized>(
    config: MicrodecoderConfig<Q::Scalar>,
    weights: LayerWeights<'a, Q::Scalar>,
    packed: Option<PackedLayer<Q>>,
    cos: Seq<Q::Scalar>,
    sin: Seq<Q::Scalar>,
    hidden: Seq<Q::Scalar>,
) -> Seq<Q::Scalar> {
    let normed = microdecoder::micro_rms::<Q>(hidden, weights.input_norm@, config.rms_eps);
    normed_heads::<Q>(
        q_row::<Q>(config, weights, packed, normed),
        config.num_q_heads as int,
        config.head_dim as int,
        weights.q_norm@,
        config.rms_eps,
        cos,
        sin,
    )
}

/// The cache of one layer after one position.
pub open spec fn cache_of<'a, Q: Quantized>(
    config: MicrodecoderConfig<Q::Scalar>,
    weights: LayerWeights<'a, Q::Scalar>,
    packed: Option<PackedLayer<Q>>,
    cos: Seq<Q::Scalar>,
    sin: Seq<Q::Scalar>,
    hidden: Seq<Q::Scalar>,
    kv: KvRows<Q::Scalar>,
) -> KvRows<Q::Scalar> {
    let normed = microdecoder::micro_rms::<Q>(hidden, weights.input_norm@, config.rms_eps);
    KvRows {
        keys: kv.keys.push(
            normed_heads::<Q>(
                k_row::<Q>(config, weights, packed, normed),
                config.num_kv_heads as int,
                config.head_dim as int,
                weights.k_norm@,
                config.rms_eps,
                cos,
                sin,
            ),
        ),
        values: kv.values.push(v_row::<Q>(config, weights, packed, normed)),
    }
}

/// Grouped-query attention of one position over the frame's cache.
pub open spec fn context_of<Q: Quantized>(
    config: MicrodecoderConfig<Q::Scalar>,
    query: Seq<Q::Scalar>,
    kv: KvRows<Q::Scalar>,
) -> Seq<Q::Scalar> {
    kernels::attend_heads_of::<Q>(
        query,
        kv.keys,
        kv.values,
        config.num_q_heads as int,
        config.group(),
        config.head_dim as int,
        arith::bin::<Q>(
            Binary::Div,
            arith::cst::<Q>(Constant::One),
            arith::un::<Q>(Unary::Sqrt, arith::num::<Q>(config.head_dim)),
        ),
    )
}

/// The residual state after the feed-forward branch.
pub open spec fn finish_of<'a, Q: Quantized>(
    config: MicrodecoderConfig<Q::Scalar>,
    weights: LayerWeights<'a, Q::Scalar>,
    packed: Option<PackedLayer<Q>>,
    residual: Seq<Q::Scalar>,
) -> Seq<Q::Scalar> {
    let normed = microdecoder::micro_rms::<Q>(
        residual,
        weights.post_attention_norm@,
        config.rms_eps,
    );
    let activated = kernels::swiglu_of::<Q>(
        gate_row::<Q>(config, weights, packed, normed),
        up_row::<Q>(config, weights, packed, normed),
    );
    kernels::zip::<Q>(
        Binary::Add,
        residual,
        down_row::<Q>(config, weights, packed, activated),
    )
}

/// The hidden state of one position after one layer.
pub open spec fn state_of<'a, Q: Quantized>(
    config: MicrodecoderConfig<Q::Scalar>,
    weights: LayerWeights<'a, Q::Scalar>,
    packed: Option<PackedLayer<Q>>,
    cos: Seq<Q::Scalar>,
    sin: Seq<Q::Scalar>,
    hidden: Seq<Q::Scalar>,
    kv: KvRows<Q::Scalar>,
) -> Seq<Q::Scalar> {
    let context = context_of::<Q>(
        config,
        query_of::<Q>(config, weights, packed, cos, sin, hidden),
        cache_of::<Q>(config, weights, packed, cos, sin, hidden, kv),
    );
    finish_of::<Q>(
        config,
        weights,
        packed,
        kernels::zip::<Q>(Binary::Add, hidden, o_row::<Q>(config, weights, packed, context)),
    )
}

/// One layer's cache after the first `n` positions of a frame.
pub open spec fn cache_after<'a, Q: Quantized>(
    config: MicrodecoderConfig<Q::Scalar>,
    weights: LayerWeights<'a, Q::Scalar>,
    packed: Option<PackedLayer<Q>>,
    rope: RopeTable<Q>,
    x: Seq<Seq<Q::Scalar>>,
    n: int,
) -> KvRows<Q::Scalar>
    decreases n,
{
    if n <= 0 {
        kernels::no_rows::<Q::Scalar>()
    } else {
        cache_of::<Q>(
            config,
            weights,
            packed,
            rope.cosines(n - 1),
            rope.sines(n - 1),
            x[n - 1],
            cache_after::<Q>(config, weights, packed, rope, x, n - 1),
        )
    }
}

/// One layer over the positions of a frame.
pub open spec fn layer_rows<'a, Q: Quantized>(
    config: MicrodecoderConfig<Q::Scalar>,
    weights: LayerWeights<'a, Q::Scalar>,
    packed: Option<PackedLayer<Q>>,
    rope: RopeTable<Q>,
    x: Seq<Seq<Q::Scalar>>,
) -> Seq<Seq<Q::Scalar>> {
    Seq::new(
        x.len(),
        |p: int|
            state_of::<Q>(
                config,
                weights,
                packed,
                rope.cosines(p),
                rope.sines(p),
                x[p],
                cache_after::<Q>(config, weights, packed, rope, x, p),
            ),
    )
}

/// Per-frame key/value state of one layer.
pub struct FrameKvState<Q: Quantized> {
    num_kv_heads: usize,
    head_dim: usize,
    keys: Vec<Vec<Q::Scalar>>,
    values: Vec<Vec<Q::Scalar>>,
}

impl<Q: Quantized> FrameKvState<Q> {
    /// The cached keys and values.
    pub closed spec fn kv(&self) -> KvRows<Q::Scalar> {
        KvRows { keys: rows::deep(self.keys@), values: rows::deep(self.values@) }
    }

    /// Width of one cached row.
    pub closed spec fn row_width(&self) -> int {
        self.num_kv_heads * self.head_dim
    }

    /// As many keys as values, all of the right width.
    pub open spec fn wf(&self) -> bool {
        &&& self.kv().keys.len() == self.kv().values.len()
        &&& rows::uniform(self.kv().keys, self.row_width())
        &&& rows::uniform(self.kv().values, self.row_width())
    }

    /// That the state has the geometry of a configuration.
    pub open spec fn serves(&self, config: MicrodecoderConfig<Q::Scalar>) -> bool {
        &&& self.wf()
        &&& self.row_width() == config.keys()
    }

    /// Empty state for one frame.
    pub fn new(config: &MicrodecoderConfig<Q::Scalar>) -> (state: Self)
        ensures
            state.serves(*config),
            state.kv() == kernels::no_rows::<Q::Scalar>(),
    {
        let state = FrameKvState {
            num_kv_heads: config.num_kv_heads,
            head_dim: config.head_dim,
            keys: Vec::new(),
            values: Vec::new(),
        };
        proof {
            assert(state.kv().keys =~= kernels::no_rows::<Q::Scalar>().keys);
            assert(state.kv().values =~= kernels::no_rows::<Q::Scalar>().values);
        }
        state
    }

    /// Cached positions in the current frame.
    pub fn len(&self) -> (n: usize)
        ensures
            n == self.kv().keys.len(),
    {
        self.keys.len()
    }

    /// Whether the frame has no cached positions.
    pub fn is_empty(&self) -> (empty: bool)
        ensures
            empty == (self.kv().keys.len() == 0),
    {
        self.keys.len() == 0
    }

    /// Drops every cached position, as at every frame boundary.
    pub fn reset(&mut self)
        ensures
            final(self).wf(),
            final(self).row_width() == old(self).row_width(),
            final(self).kv() == kernels::no_rows::<Q::Scalar>(),
    {
        self.keys.clear();
        self.values.clear();
        proof {
            assert(self.kv().keys =~= kernels::no_rows::<Q::Scalar>().keys);
            assert(self.kv().values =~= kernels::no_rows::<Q::Scalar>().values);
        }
    }

    /// Caches one position.
    pub fn push(&mut self, key: &[Q::Scalar], value: &[Q::Scalar])
        requires
            old(self).wf(),
            key@.len() == old(self).row_width(),
            value@.len() == old(self).row_width(),
        ensures
            final(self).wf(),
            final(self).row_width() == old(self).row_width(),
            final(self).kv() == (KvRows {
                keys: old(self).kv().keys.push(key@),
                values: old(self).kv().values.push(value@),
            }),
    {
        let ghost before = *self;
        self.keys.push(vstd::slice::slice_to_vec(key));
        self.values.push(vstd::slice::slice_to_vec(value));
        proof {
            assert(self.kv().keys =~= before.kv().keys.push(key@));
            assert(self.kv().values =~= before.kv().values.push(value@));
        }
    }
}

/// Every layer's key/value state for one frame; each layer keeps its own.
pub struct FrameState<Q: Quantized> {
    /// One state per layer, in order.
    pub layers: Vec<FrameKvState<Q>>,
}

impl<Q: Quantized> FrameState<Q> {
    /// That there is one state per layer, each with the right geometry.
    pub open spec fn serves(&self, config: MicrodecoderConfig<Q::Scalar>) -> bool {
        &&& self.layers@.len() == config.num_layers
        &&& forall|i: int|
            0 <= i < self.layers@.len() ==> (#[trigger] self.layers@[i]).serves(config)
    }

    /// That no layer has anything cached.
    pub open spec fn fresh(&self) -> bool {
        forall|i: int|
            0 <= i < self.layers@.len() ==> (#[trigger] self.layers@[i]).kv()
                == kernels::no_rows::<Q::Scalar>()
    }

    /// One empty state per layer.
    pub fn new(config: &MicrodecoderConfig<Q::Scalar>) -> (state: Self)
        ensures
            state.serves(*config),
            state.fresh(),
    {
        let mut layers: Vec<FrameKvState<Q>> = Vec::new();
        for i in 0..config.num_layers
            invariant
                layers@.len() == i,
                forall|j: int|
                    0 <= j < i ==> {
                        &&& (#[trigger] layers@[j]).serves(*config)
                        &&& layers@[j].kv() == kernels::no_rows::<Q::Scalar>()
                    },
        {
            layers.push(FrameKvState::<Q>::new(config));
        }
        FrameState { layers }
    }

    /// Clears every layer's cache.
    pub fn reset(&mut self)
        ensures
            final(self).fresh(),
            final(self).layers@.len() == old(self).layers@.len(),
            forall|i: int|
                0 <= i < final(self).layers@.len() ==> {
                    &&& (#[trigger] final(self).layers@[i]).wf()
                    &&& final(self).layers@[i].row_width() == old(self).layers@[i].row_width()
                },
    {
        let ghost start = self.layers@;
        let n: usize = self.layers.len();
        for i in 0..n
            invariant
                n == start.len(),
                self.layers@.len() == start.len(),
                forall|j: int|
                    0 <= j < i ==> {
                        &&& (#[trigger] self.layers@[j]).wf()
                        &&& self.layers@[j].kv() == kernels::no_rows::<Q::Scalar>()
                    },
                forall|j: int|
                    0 <= j < n ==> (#[trigger] self.layers@[j]).row_width()
                        == start[j].row_width(),
        {
            self.layers[i].reset();
        }
    }

    /// Cached positions in one layer.
    pub fn len(&self, layer: usize) -> (n: usize)
        requires
            layer < self.layers@.len(),
        ensures
            n == self.layers@[layer as int].kv().keys.len(),
    {
        self.layers[layer].len()
    }

    /// Whether a layer has nothing cached.
    pub fn is_empty(&self, layer: usize) -> (empty: bool)
        requires
            layer < self.layers@.len(),
        ensures
            empty == (self.layers@[layer as int].kv().keys.len() == 0),
    {
        self.layers[layer].is_empty()
    }

    /// Number of layers this state covers.
    pub fn layer_count(&self) -> (n: usize)
        ensures
            n == self.layers@.len(),
    {
        self.layers.len()
    }
}

/// Every head normed, then rotated.
fn norm_heads<Q: Quantized>(
    x: &[Q::Scalar],
    heads: usize,
    width: usize,
    weight: &[Q::Scalar],
    eps: Q::Scalar,
    cos: &[Q::Scalar],
    sin: &[Q::Scalar],
) -> (out: Vec<Q::Scalar>)
    requires
        x@.len() == heads * width,
        weight@.len() == width,
        cos@.len() == width,
        sin@.len() == width,
        width % 2 == 0,
    ensures
        out@.len() == heads * width,
        arith::pure::<Q>() ==> out@ == normed_heads::<Q>(
            x@,
            heads as int,
            width as int,
            weight@,
            eps,
            cos@,
            sin@,
        ),
{
    let mut parts: Vec<Vec<Q::Scalar>> = Vec::new();
    for h in 0..heads
        invariant
            x@.len() == heads * width,
            weight@.len() == width,
            cos@.len() == width,
            sin@.len() == width,
            width % 2 == 0,
            parts@.len() == h,
            forall|j: int| 0 <= j < h ==> (#[trigger] parts@[j])@.len() == width,
            arith::pure::<Q>() ==> forall|j: int|
                0 <= j < h ==> (#[trigger] parts@[j])@ == kernels::rope_of::<Q>(
                    microdecoder::micro_rms::<Q>(
                        rows::row(x@, j, width as int),
                        weight@,
                        eps,
                    ),
                    cos@,
                    sin@,
                ),
    {
        proof {
            rows::lemma_row_bounds(h as int, heads as int, width as int);
        }
        let normed = rms_norm::<Q>(row_of(x, h, width), weight, eps);
        parts.push(rope::<Q>(normed.as_slice(), cos, sin));
    }
    let out = join_rows(&parts);
    proof {
        rows::lemma_flatten_len(rows::deep(parts@), width as int);
        if arith::pure::<Q>() {
            assert(rows::deep(parts@) =~= Seq::new(
                heads as nat,
                |h: int|
                    kernels::rope_of::<Q>(
                        microdecoder::micro_rms::<Q>(
                            rows::row(x@, h, width as int),
                            weight@,
                            eps,
                        ),
                        cos@,
                        sin@,
                    ),
            ));
        }
    }
    out
}

/// Grouped-query attention of one query row over the frame's cache.
fn attend_one_position<Q: Quantized>(
    config: &MicrodecoderConfig<Q::Scalar>,
    query: &[Q::Scalar],
    state: &FrameKvState<Q>,
) -> (context: Vec<Q::Scalar>)
    requires
        config.valid(),
        state.serves(*config),
        query@.len() == config.queries(),
    ensures
        context@.len() == config.queries(),
        arith::pure::<Q>() ==> context@ == context_of::<Q>(*config, query@, state.kv()),
{
    let root = unary::<Q>(Unary::Sqrt, count::<Q>(config.head_dim));
    let scale = binary::<Q>(Binary::Div, constant::<Q>(Constant::One), root);
    proof {
        lemma_widths(*config);
    }
    attend_heads::<Q>(
        query,
        &state.keys,
        &state.values,
        config.num_q_heads,
        config.q_per_kv(),
        config.head_dim,
        config.num_kv_heads,
        scale,
    )
}

/// Runs one layer over one position on the plain weights, with explicit rotary rows.
///
/// The position attends to the cache as it stands after its own key and value are appended,
/// which is the causal row.
pub fn layer_step_with_rotary<'a, Q: Quantized>(
    config: &MicrodecoderConfig<Q::Scalar>,
    weights: &LayerWeights<'a, Q::Scalar>,
    cos: &[Q::Scalar],
    sin: &[Q::Scalar],
    hidden: &[Q::Scalar],
    state: &mut FrameKvState<Q>,
) -> (out: Vec<Q::Scalar>)
    requires
        config.valid(),
        weights.fits(*config),
        cos@.len() == config.head_dim,
        sin@.len() == config.head_dim,
        hidden@.len() == config.hidden_size,
        old(state).serves(*config),
    ensures
        final(state).serves(*config),
        final(state).kv().keys.len() == old(state).kv().keys.len() + 1,
        out@.len() == config.hidden_size,
        arith::pure::<Q>() ==> {
            &&& out@ == state_of::<Q>(
                *config,
                *weights,
                None,
                cos@,
                sin@,
                hidden@,
                old(state).kv(),
            )
            &&& final(state).kv() == cache_of::<Q>(
                *config,
                *weights,
                None,
                cos@,
                sin@,
                hidden@,
                old(state).kv(),
            )
        },
{
    proof {
        lemma_widths(*config);
    }
    let heads: usize = config.num_q_heads;
    let width: usize = config.head_dim;
    let normed = rms_norm::<Q>(hidden, weights.input_norm, config.rms_eps);
    let q = matvec::<Q>(weights.q_proj, normed.as_slice(), config.q_width());
    let k = matvec::<Q>(weights.k_proj, normed.as_slice(), config.kv_width());
    let v = matvec::<Q>(weights.v_proj, normed.as_slice(), config.kv_width());
    let q = norm_heads::<Q>(q.as_slice(), heads, width, weights.q_norm, config.rms_eps, cos, sin);
    let k = norm_heads::<Q>(
        k.as_slice(),
        config.num_kv_heads,
        width,
        weights.k_norm,
        config.rms_eps,
        cos,
        sin,
    );
    state.push(k.as_slice(), v.as_slice());
    let context = attend_one_position::<Q>(config, q.as_slice(), state);
    let branch = matvec::<Q>(weights.o_proj, context.as_slice(), config.hidden_size);
    let residual = zip_with::<Q>(Binary::Add, hidden, branch.as_slice());

    let normed = rms_norm::<Q>(
        residual.as_slice(),
        weights.post_attention_norm,
        config.rms_eps,
    );
    let gate = matvec::<Q>(weights.gate_proj, normed.as_slice(), config.intermediate_size);
    let up = matvec::<Q>(weights.up_proj, normed.as_slice(), config.intermediate_size);
    let activated = swiglu::<Q>(gate.as_slice(), up.as_slice());
    let branch = matvec::<Q>(weights.down_proj, activated.as_slice(), config.hidden_size);
    zip_with::<Q>(Binary::Add, residual.as_slice(), branch.as_slice())
}

/// Runs one layer over one position of the frame on the plain weights.
pub fn layer_step<'a, Q: Quantized>(
    config: &MicrodecoderConfig<Q::Scalar>,
    rope: &RopeTable<Q>,
    weights: &LayerWeights<'a, Q::Scalar>,
    hidden: &[Q::Scalar],
    position: usize,
    state: &mut FrameKvState<Q>,
) -> (out: Vec<Q::Scalar>)
    requires
        config.valid(),
        rope.wf(),
        rope.width() == config.head_dim,
        weights.fits(*config),
        hidden@.len() == config.hidden_size,
        position < FRAME_POSITIONS,
        old(state).serves(*config),
    ensures
        final(state).serves(*config),
        final(state).kv().keys.len() == old(state).kv().keys.len() + 1,
        out@.len() == config.hidden_size,
        arith::pure::<Q>() ==> {
            &&& out@ == state_of::<Q>(
                *config,
                *weights,
                None,
                rope.cosines(position as int),
                rope.sines(position as int),
                hidden@,
                old(state).kv(),
            )
            &&& final(state).kv() == cache_of::<Q>(
                *config,
                *weights,
                None,
                rope.cosines(position as int),
                rope.sines(position as int),
                hidden@,
                old(state).kv(),
            )
        },
{
    let (cos, sin) = rope.row(position);
    layer_step_with_rotary::<Q>(config, weights, cos, sin, hidden, state)
}

/// [`layer_step_with_rotary`] with the projections on the eight-bit kernels.
pub fn layer_step_q8<'a, Q: Quantized>(
    config: &MicrodecoderConfig<Q::Scalar>,
    weights: &LayerWeights<'a, Q::Scalar>,
    packed: &MicroLayerQuant<Q>,
    cos: &[Q::Scalar],
    sin: &[Q::Scalar],
    hidden: &[Q::Scalar],
    state: &mut FrameKvState<Q>,
    mode: Q::Mode,
) -> (out: Vec<Q::Scalar>)
    requires
        config.valid(),
        weights.norms_fit(*config),
        packed.fits(*config),
        cos@.len() == config.head_dim,
        sin@.len() == config.head_dim,
        hidden@.len() == config.hidden_size,
        old(state).serves(*config),
    ensures
        final(state).serves(*config),
        final(state).kv().keys.len() == old(state).kv().keys.len() + 1,
        out@.len() == config.hidden_size,
        exact::<Q>() ==> {
            let body = Some(PackedLayer { layer: *packed, mode });
            &&& out@ == state_of::<Q>(
                *config,
                *weights,
                body,
                cos@,
                sin@,
                hidden@,
                old(state).kv(),
            )
            &&& final(state).kv() == cache_of::<Q>(
                *config,
                *weights,
                body,
                cos@,
                sin@,
                hidden@,
                old(state).kv(),
            )
        },
{
    proof {
        lemma_widths(*config);
    }
    let heads: usize = config.num_q_heads;
    let width: usize = config.head_dim;
    let queries: usize = config.q_width();
    let keys: usize = config.kv_width();
    let inner: usize = config.intermediate_size;
    let normed = rms_norm::<Q>(hidden, weights.input_norm, config.rms_eps);
    let q = packed.qkv.project(mode, normed.as_slice(), 0, queries);
    let k = packed.qkv.project(mode, normed.as_slice(), queries, keys);
    let v = packed.qkv.project(mode, normed.as_slice(), queries + keys, keys);
    let q = norm_heads::<Q>(q.as_slice(), heads, width, weights.q_norm, config.rms_eps, cos, sin);
    let k = norm_heads::<Q>(
        k.as_slice(),
        config.num_kv_heads,
        width,
        weights.k_norm,
        config.rms_eps,
        cos,
        sin,
    );
    state.push(k.as_slice(), v.as_slice());
    let context = attend_one_position::<Q>(config, q.as_slice(), state);
    let branch = packed.o_proj.project(mode, context.as_slice(), 0, config.hidden_size);
    let residual = zip_with::<Q>(Binary::Add, hidden, branch.as_slice());

    let normed = rms_norm::<Q>(
        residual.as_slice(),
        weights.post_attention_norm,
        config.rms_eps,
    );
    let gate = packed.gate_up.project(mode, normed.as_slice(), 0, inner);
    let up = packed.gate_up.project(mode, normed.as_slice(), inner, inner);
    let activated = swiglu::<Q>(gate.as_slice(), up.as_slice());
    let branch = packed.down_proj.project(mode, activated.as_slice(), 0, config.hidden_size);
    zip_with::<Q>(Binary::Add, residual.as_slice(), branch.as_slice())
}

/// The hidden state of one position before the feed-forward branch.
pub open spec fn attended_of<'a, Q: Quantized>(
    config: MicrodecoderConfig<Q::Scalar>,
    weights: LayerWeights<'a, Q::Scalar>,
    packed: Option<PackedLayer<Q>>,
    rope: RopeTable<Q>,
    x: Seq<Seq<Q::Scalar>>,
    p: int,
) -> Seq<Q::Scalar> {
    context_of::<Q>(
        config,
        query_of::<Q>(config, weights, packed, rope.cosines(p), rope.sines(p), x[p]),
        cache_after::<Q>(config, weights, packed, rope, x, p + 1),
    )
}

/// The fused query, key and value rows of a frame, in one pass over the packed matrix.
fn fused_rows<'a, Q: Quantized>(
    config: &MicrodecoderConfig<Q::Scalar>,
    weights: &LayerWeights<'a, Q::Scalar>,
    packed: &MicroLayerQuant<Q>,
    x: &Vec<Vec<Q::Scalar>>,
    mode: Q::Mode,
) -> (out: Vec<Vec<Q::Scalar>>)
    requires
        config.valid(),
        weights.norms_fit(*config),
        packed.fits(*config),
        rows::uniform(rows::deep(x@), config.hidden_size as int),
    ensures
        out@.len() == x@.len(),
        rows::uniform(rows::deep(out@), config.queries() + 2 * config.keys()),
        exact::<Q>() ==> forall|p: int|
            0 <= p < x@.len() ==> (#[trigger] out@[p])@ == quant::projected::<Q>(
                mode,
                microdecoder::micro_rms::<Q>(x@[p]@, weights.input_norm@, config.rms_eps),
                packed.qkv,
                0,
                config.queries() + 2 * config.keys(),
            ),
{
    proof {
        lemma_widths(*config);
    }
    let width: usize = config.q_width() + 2 * config.kv_width();
    let mut out: Vec<Vec<Q::Scalar>> = Vec::new();
    for p in 0..x.len()
        invariant
            width == config.queries() + 2 * config.keys(),
            weights.norms_fit(*config),
            packed.fits(*config),
            rows::uniform(rows::deep(x@), config.hidden_size as int),
            out@.len() == p,
            forall|j: int| 0 <= j < p ==> (#[trigger] out@[j])@.len() == width,
            exact::<Q>() ==> forall|j: int|
                0 <= j < p ==> (#[trigger] out@[j])@ == quant::projected::<Q>(
                    mode,
                    microdecoder::micro_rms::<Q>(x@[j]@, weights.input_norm@, config.rms_eps),
                    packed.qkv,
                    0,
                    width as int,
                ),
    {
        proof {
            assert(rows::deep(x@)[p as int] == x@[p as int]@);
        }
        let normed = rms_norm::<Q>(x[p].as_slice(), weights.input_norm, config.rms_eps);
        out.push(packed.qkv.project(mode, normed.as_slice(), 0, width));
    }
    out
}

/// The attention branch of a frame, position by position against one fresh cache.
fn attended_rows<'a, Q: Quantized>(
    config: &MicrodecoderConfig<Q::Scalar>,
    weights: &LayerWeights<'a, Q::Scalar>,
    packed: &MicroLayerQuant<Q>,
    rope: &RopeTable<Q>,
    x: &Vec<Vec<Q::Scalar>>,
    mode: Q::Mode,
) -> (out: Vec<Vec<Q::Scalar>>)
    requires
        config.valid(),
        weights.norms_fit(*config),
        packed.fits(*config),
        rope.wf(),
        rope.width() == config.head_dim,
        x@.len() <= FRAME_POSITIONS,
        rows::uniform(rows::deep(x@), config.hidden_size as int),
    ensures
        out@.len() == x@.len(),
        rows::uniform(rows::deep(out@), config.queries()),
        exact::<Q>() ==> forall|p: int|
            0 <= p < x@.len() ==> (#[trigger] out@[p])@ == attended_of::<Q>(
                *config,
                *weights,
                Some(PackedLayer { layer: *packed, mode }),
                *rope,
                rows::deep(x@),
                p,
            ),
{
    proof {
        lemma_widths(*config);
    }
    let fused = fused_rows::<Q>(config, weights, packed, x, mode);
    let queries: usize = config.q_width();
    let keys: usize = config.kv_width();
    let ghost body = Some(PackedLayer { layer: *packed, mode });
    let mut state = FrameKvState::<Q>::new(config);
    let mut out: Vec<Vec<Q::Scalar>> = Vec::new();
    for p in 0..x.len()
        invariant
            config.valid(),
            weights.norms_fit(*config),
            packed.fits(*config),
            rope.wf(),
            rope.width() == config.head_dim,
            x@.len() <= FRAME_POSITIONS,
            rows::uniform(rows::deep(x@), config.hidden_size as int),
            queries == config.queries(),
            keys == config.keys(),
            body == Some(PackedLayer { layer: *packed, mode }),
            fused@.len() == x@.len(),
            rows::uniform(rows::deep(fused@), queries + 2 * keys),
            exact::<Q>() ==> forall|j: int|
                0 <= j < x@.len() ==> (#[trigger] fused@[j])@ == quant::projected::<Q>(
                    mode,
                    microdecoder::micro_rms::<Q>(x@[j]@, weights.input_norm@, config.rms_eps),
                    packed.qkv,
                    0,
                    queries + 2 * keys,
                ),
            state.serves(*config),
            exact::<Q>() ==> state.kv() == cache_after::<Q>(
                *config,
                *weights,
                body,
                *rope,
                rows::deep(x@),
                p as int,
            ),
            out@.len() == p,
            forall|j: int| 0 <= j < p ==> (#[trigger] out@[j])@.len() == queries,
            exact::<Q>() ==> forall|j: int|
                0 <= j < p ==> (#[trigger] out@[j])@ == attended_of::<Q>(
                    *config,
                    *weights,
                    body,
                    *rope,
                    rows::deep(x@),
                    j,
                ),
    {
        proof {
            assert(rows::deep(x@)[p as int] == x@[p as int]@);
            assert(rows::deep(fused@)[p as int] == fused@[p as int]@);
        }
        let row = fused[p].as_slice();
        let q = slice_subrange(row, 0, queries);
        let k = slice_subrange(row, queries, queries + keys);
        let v = slice_subrange(row, queries + keys, queries + 2 * keys);
        proof {
            if exact::<Q>() {
                let normed = microdecoder::micro_rms::<Q>(
                    x@[p as int]@,
                    weights.input_norm@,
                    config.rms_eps,
                );
                assert(q@ =~= q_row::<Q>(*config, *weights, body, normed));
                assert(k@ =~= k_row::<Q>(*config, *weights, body, normed));
                assert(v@ =~= v_row::<Q>(*config, *weights, body, normed));
            }
        }
        let (cos, sin) = rope.row(p);
        let eps = config.rms_eps;
        let width: usize = config.head_dim;
        let q = norm_heads::<Q>(q, config.num_q_heads, width, weights.q_norm, eps, cos, sin);
        let k = norm_heads::<Q>(k, config.num_kv_heads, width, weights.k_norm, eps, cos, sin);
        state.push(k.as_slice(), v);
        out.push(attend_one_position::<Q>(config, q.as_slice(), &state));
    }
    out
}

/// A frame's residual states after the attention branch.
fn residual_rows<Q: Quantized>(
    config: &MicrodecoderConfig<Q::Scalar>,
    packed: &MicroLayerQuant<Q>,
    x: &Vec<Vec<Q::Scalar>>,
    contexts: &Vec<Vec<Q::Scalar>>,
    mode: Q::Mode,
) -> (out: Vec<Vec<Q::Scalar>>)
    requires
        packed.fits(*config),
        contexts@.len() == x@.len(),
        rows::uniform(rows::deep(x@), config.hidden_size as int),
        rows::uniform(rows::deep(contexts@), config.queries()),
    ensures
        out@.len() == x@.len(),
        rows::uniform(rows::deep(out@), config.hidden_size as int),
        exact::<Q>() ==> forall|p: int|
            0 <= p < x@.len() ==> (#[trigger] out@[p])@ == kernels::zip::<Q>(
                Binary::Add,
                x@[p]@,
                quant::projected::<Q>(
                    mode,
                    contexts@[p]@,
                    packed.o_proj,
                    0,
                    config.hidden_size as int,
                ),
            ),
{
    let mut out: Vec<Vec<Q::Scalar>> = Vec::new();
    for p in 0..x.len()
        invariant
            packed.fits(*config),
            contexts@.len() == x@.len(),
            rows::uniform(rows::deep(x@), config.hidden_size as int),
            rows::uniform(rows::deep(contexts@), config.queries()),
            out@.len() == p,
            forall|j: int| 0 <= j < p ==> (#[trigger] out@[j])@.len() == config.hidden_size,
            exact::<Q>() ==> forall|j: int|
                0 <= j < p ==> (#[trigger] out@[j])@ == kernels::zip::<Q>(
                    Binary::Add,
                    x@[j]@,
                    quant::projected::<Q>(
                        mode,
                        contexts@[j]@,
                        packed.o_proj,
                        0,
                        config.hidden_size as int,
                    ),
                ),
    {
        proof {
            assert(rows::deep(x@)[p as int] == x@[p as int]@);
            assert(rows::deep(contexts@)[p as int] == contexts@[p as int]@);
        }
        let branch = packed.o_proj.project(mode, contexts[p].as_slice(), 0, config.hidden_size);
        out.push(zip_with::<Q>(Binary::Add, x[p].as_slice(), branch.as_slice()));
    }
    out
}

/// A frame's states after the feed-forward branch.
fn finished_rows<'a, Q: Quantized>(
    config: &MicrodecoderConfig<Q::Scalar>,
    weights: &LayerWeights<'a, Q::Scalar>,
    packed: &MicroLayerQuant<Q>,
    residual: &Vec<Vec<Q::Scalar>>,
    mode: Q::Mode,
) -> (out: Vec<Vec<Q::Scalar>>)
    requires
        config.valid(),
        weights.norms_fit(*config),
        packed.fits(*config),
        rows::uniform(rows::deep(residual@), config.hidden_size as int),
    ensures
        out@.len() == residual@.len(),
        rows::uniform(rows::deep(out@), config.hidden_size as int),
        exact::<Q>() ==> forall|p: int|
            0 <= p < residual@.len() ==> (#[trigger] out@[p])@ == finish_of::<Q>(
                *config,
                *weights,
                Some(PackedLayer { layer: *packed, mode }),
                residual@[p]@,
            ),
{
    let inner: usize = config.intermediate_size;
    let ghost body = Some(PackedLayer { layer: *packed, mode });
    let mut out: Vec<Vec<Q::Scalar>> = Vec::new();
    for p in 0..residual.len()
        invariant
            config.valid(),
            weights.norms_fit(*config),
            packed.fits(*config),
            inner == config.intermediate_size,
            body == Some(PackedLayer { layer: *packed, mode }),
            rows::uniform(rows::deep(residual@), config.hidden_size as int),
            out@.len() == p,
            forall|j: int| 0 <= j < p ==> (#[trigger] out@[j])@.len() == config.hidden_size,
            exact::<Q>() ==> forall|j: int|
                0 <= j < p ==> (#[trigger] out@[j])@ == finish_of::<Q>(
                    *config,
                    *weights,
                    body,
                    residual@[j]@,
                ),
    {
        proof {
            assert(rows::deep(residual@)[p as int] == residual@[p as int]@);
        }
        let row = residual[p].as_slice();
        let normed = rms_norm::<Q>(row, weights.post_attention_norm, config.rms_eps);
        let fused = packed.gate_up.project(mode, normed.as_slice(), 0, 2 * inner);
        let gate = slice_subrange(fused.as_slice(), 0, inner);
        let up = slice_subrange(fused.as_slice(), inner, 2 * inner);
        proof {
            if exact::<Q>() {
                assert(gate@ =~= gate_row::<Q>(*config, *weights, body, normed@));
                assert(up@ =~= up_row::<Q>(*config, *weights, body, normed@));
            }
        }
        let activated = swiglu::<Q>(gate, up);
        let branch = packed.down_proj.project(mode, activated.as_slice(), 0, config.hidden_size);
        out.push(zip_with::<Q>(Binary::Add, row, branch.as_slice()));
    }
    out
}

/// One packed layer over the rows of a frame, each projection in one pass over its matrix.
pub fn block_rows<'a, Q: Quantized>(
    config: &MicrodecoderConfig<Q::Scalar>,
    weights: &LayerWeights<'a, Q::Scalar>,
    packed: &MicroLayerQuant<Q>,
    rope: &RopeTable<Q>,
    x: &Vec<Vec<Q::Scalar>>,
    mode: Q::Mode,
) -> (out: Vec<Vec<Q::Scalar>>)
    requires
        config.valid(),
        weights.norms_fit(*config),
        packed.fits(*config),
        rope.wf(),
        rope.width() == config.head_dim,
        x@.len() <= FRAME_POSITIONS,
        rows::uniform(rows::deep(x@), config.hidden_size as int),
    ensures
        out@.len() == x@.len(),
        rows::uniform(rows::deep(out@), config.hidden_size as int),
        exact::<Q>() ==> rows::deep(out@) == layer_rows::<Q>(
            *config,
            *weights,
            Some(PackedLayer { layer: *packed, mode }),
            *rope,
            rows::deep(x@),
        ),
{
    let contexts = attended_rows::<Q>(config, weights, packed, rope, x, mode);
    let residual = residual_rows::<Q>(config, packed, x, &contexts, mode);
    let out = finished_rows::<Q>(config, weights, packed, &residual, mode);
    proof {
        if exact::<Q>() {
            let body = Some(PackedLayer { layer: *packed, mode });
            let expected = layer_rows::<Q>(*config, *weights, body, *rope, rows::deep(x@));
            assert forall|p: int| 0 <= p < x@.len() implies rows::deep(out@)[p]
                == #[trigger] expected[p] by {
                assert(out@[p]@ == finish_of::<Q>(*config, *weights, body, residual@[p]@));
                assert(contexts@[p]@ == attended_of::<Q>(
                    *config,
                    *weights,
                    body,
                    *rope,
                    rows::deep(x@),
                    p,
                ));
                assert(rows::deep(x@)[p] == x@[p]@);
            }
            assert(rows::deep(out@) =~= expected);
        }
    }
    out
}

/// One packed layer over a whole `[FRAME_POSITIONS, hidden]` frame.
///
/// The same rows come out as from a position at a time: every row is projected on its own, and
/// attention still runs in position order.
pub fn layer_block_q8<'a, Q: Quantized>(
    config: &MicrodecoderConfig<Q::Scalar>,
    weights: &LayerWeights<'a, Q::Scalar>,
    packed: &MicroLayerQuant<Q>,
    rope: &RopeTable<Q>,
    hidden: &[Q::Scalar],
    mode: Q::Mode,
) -> (out: Vec<Q::Scalar>)
    requires
        config.valid(),
        weights.norms_fit(*config),
        packed.fits(*config),
        rope.wf(),
        rope.width() == config.head_dim,
        hidden@.len() == FRAME_POSITIONS * config.hidden_size,
    ensures
        out@.len() == FRAME_POSITIONS * config.hidden_size,
        exact::<Q>() ==> out@ == layer_rows::<Q>(
            *config,
            *weights,
            Some(PackedLayer { layer: *packed, mode }),
            *rope,
            rows::unstack(hidden@, FRAME_POSITIONS as int, config.hidden_size as int),
        ).flatten(),
{
    let x = split_rows(hidden, FRAME_POSITIONS, config.hidden_size);
    proof {
        assert(rows::deep(x@).len() == FRAME_POSITIONS);
    }
    let out = block_rows::<Q>(config, weights, packed, rope, &x, mode);
    proof {
        rows::lemma_flatten_len(rows::deep(out@), config.hidden_size as int);
    }
    join_rows(&out)
}

/// What a layer has cached depends only on the positions it has seen.
pub proof fn lemma_cache_is_causal<'a, Q: Quantized>(
    config: MicrodecoderConfig<Q::Scalar>,
    weights: LayerWeights<'a, Q::Scalar>,
    packed: Option<PackedLayer<Q>>,
    rope: RopeTable<Q>,
    x: Seq<Seq<Q::Scalar>>,
    y: Seq<Seq<Q::Scalar>>,
    n: int,
)
    requires
        0 <= n <= x.len(),
        n <= y.len(),
        x.take(n) == y.take(n),
    ensures
        cache_after::<Q>(config, weights, packed, rope, x, n) == cache_after::<Q>(
            config,
            weights,
            packed,
            rope,
            y,
            n,
        ),
    decreases n,
{
    if n > 0 {
        assert(x.take(n - 1) =~= x.take(n).take(n - 1));
        assert(y.take(n - 1) =~= y.take(n).take(n - 1));
        lemma_cache_is_causal::<Q>(config, weights, packed, rope, x, y, n - 1);
        assert(x[n - 1] == x.take(n)[n - 1]);
        assert(y[n - 1] == y.take(n)[n - 1]);
    }
}

/// What a layer makes of a position depends only on that position and the ones before it.
pub proof fn law_layer_is_causal<'a, Q: Quantized>(
    config: MicrodecoderConfig<Q::Scalar>,
    weights: LayerWeights<'a, Q::Scalar>,
    packed: Option<PackedLayer<Q>>,
    rope: RopeTable<Q>,
    x: Seq<Seq<Q::Scalar>>,
    n: int,
)
    requires
        0 <= n <= x.len(),
    ensures
        layer_rows::<Q>(config, weights, packed, rope, x.take(n)) == layer_rows::<Q>(
            config,
            weights,
            packed,
            rope,
            x,
        ).take(n),
{
    let short = layer_rows::<Q>(config, weights, packed, rope, x.take(n));
    let long = layer_rows::<Q>(config, weights, packed, rope, x).take(n);
    assert forall|p: int| 0 <= p < n implies #[trigger] short[p] == long[p] by {
        assert(x.take(n).take(p) =~= x.take(p));
        lemma_cache_is_causal::<Q>(config, weights, packed, rope, x.take(n), x, p);
    }
    assert(short =~= long);
}

/// That one position after another was run through a layer, each on the cache of the one before:
/// `outs` is what came out and `caches` what was cached, first of all nothing.
pub open spec fn stepped<'a, Q: Quantized>(
    config: MicrodecoderConfig<Q::Scalar>,
    weights: LayerWeights<'a, Q::Scalar>,
    packed: Option<PackedLayer<Q>>,
    rope: RopeTable<Q>,
    x: Seq<Seq<Q::Scalar>>,
    outs: Seq<Seq<Q::Scalar>>,
    caches: Seq<KvRows<Q::Scalar>>,
) -> bool {
    &&& outs.len() == x.len()
    &&& caches.len() == x.len() + 1
    &&& caches[0] == kernels::no_rows::<Q::Scalar>()
    &&& forall|p: int|
        0 <= p < x.len() ==> {
            let (cos, sin) = (rope.cosines(p), rope.sines(p));
            &&& #[trigger] outs[p] == state_of::<Q>(
                config,
                weights,
                packed,
                cos,
                sin,
                x[p],
                caches[p],
            )
            &&& caches[p + 1] == cache_of::<Q>(config, weights, packed, cos, sin, x[p], caches[p])
        }
}

/// A position at a time caches what a block caches.
proof fn lemma_steps_cache<'a, Q: Quantized>(
    config: MicrodecoderConfig<Q::Scalar>,
    weights: LayerWeights<'a, Q::Scalar>,
    packed: Option<PackedLayer<Q>>,
    rope: RopeTable<Q>,
    x: Seq<Seq<Q::Scalar>>,
    outs: Seq<Seq<Q::Scalar>>,
    caches: Seq<KvRows<Q::Scalar>>,
    n: int,
)
    requires
        stepped::<Q>(config, weights, packed, rope, x, outs, caches),
        0 <= n <= x.len(),
    ensures
        caches[n] == cache_after::<Q>(config, weights, packed, rope, x, n),
    decreases n,
{
    if n > 0 {
        lemma_steps_cache::<Q>(config, weights, packed, rope, x, outs, caches, n - 1);
        assert(outs[n - 1] == outs[n - 1]);
    }
}

/// A block comes out as its positions do, run one after another: on either route the steps of a
/// layer give the rows of its block.
pub proof fn law_steps_make_the_block<'a, Q: Quantized>(
    config: MicrodecoderConfig<Q::Scalar>,
    weights: LayerWeights<'a, Q::Scalar>,
    packed: Option<PackedLayer<Q>>,
    rope: RopeTable<Q>,
    x: Seq<Seq<Q::Scalar>>,
    outs: Seq<Seq<Q::Scalar>>,
    caches: Seq<KvRows<Q::Scalar>>,
)
    requires
        stepped::<Q>(config, weights, packed, rope, x, outs, caches),
    ensures
        outs == layer_rows::<Q>(config, weights, packed, rope, x),
        caches.last() == cache_after::<Q>(config, weights, packed, rope, x, x.len() as int),
{
    let block = layer_rows::<Q>(config, weights, packed, rope, x);
    lemma_steps_cache::<Q>(
        config,
        weights,
        packed,
        rope,
        x,
        outs,
        caches,
        x.len() as int,
    );
    assert forall|p: int| 0 <= p < x.len() implies outs[p] == #[trigger] block[p] by {
        lemma_steps_cache::<Q>(config, weights, packed, rope, x, outs, caches, p);
    }
    assert(outs =~= block);
}

} // verus!
