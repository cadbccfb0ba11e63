//! Tests of what calls require of shapes, for callers that were given theirs.
use vstd::prelude::*;
use crate::codec::quantizer::is_product;
use crate::generate::route::{can_prepare_int8_route, Int8Route, RouteSettings};
use crate::generate::session::QwenGeneratorConfig;
use crate::generate::text_rows::{ColdTextRows, TextEmbeddingWeights};
use crate::ids;
use crate::microdecoder::frame;
use crate::microdecoder::frame::{MicroQuantRoute, MicrodecoderWeights};
use crate::microdecoder::layer;
use crate::microdecoder::layer::{LayerWeights, MicroLayerQuant};
use crate::microdecoder::{MicrodecoderConfig, RopeTable, RESIDUAL_DEPTHS, RESIDUAL_VOCAB};
use crate::quant::Quantized;
use crate::storage::{Artifact, Bits};
use crate::talker::{TalkerConfig, TalkerLayerWeights, PRIMARY_CODE_VOCAB_SIZE};

verus! {

/// Whether query heads and twice the key/value heads make a width that can be counted.
fn stacks(query_heads: usize, key_heads: usize, head_dim: usize) -> (ok: bool)
    ensures
        ok == (query_heads * head_dim + 2 * (key_heads * head_dim) <= usize::MAX),
{
    proof {
        assert(0 <= query_heads * head_dim) by (nonlinear_arith);
        assert(0 <= key_heads * head_dim) by (nonlinear_arith);
    }
    match (query_heads.checked_mul(head_dim), key_heads.checked_mul(head_dim)) {
        (Some(queries), Some(keys)) => keys <= usize::MAX / 2 && queries <= usize::MAX - 2 * keys,
        _ => false,
    }
}

impl<S> MicrodecoderConfig<S> {
    /// Whether the geometry is one that a frame can be decoded with.
    pub fn is_valid(&self) -> (ok: bool)
        ensures
            ok == self.valid(),
    {
        if self.num_kv_heads == 0 {
            return false;
        }
        let group: usize = self.num_q_heads / self.num_kv_heads;
        proof {
            vstd::arithmetic::div_mod::lemma_fundamental_div_mod(
                self.num_q_heads as int,
                self.num_kv_heads as int,
            );
        }
        stacks(self.num_q_heads, self.num_kv_heads, self.head_dim) && self.intermediate_size
            <= usize::MAX / 2 && self.hidden_size <= usize::MAX / 16 && self.head_dim % 2 == 0
            && group > 0 && self.num_q_heads % self.num_kv_heads == 0
    }
}

impl<S> TalkerConfig<S> {
    /// Whether the stacked widths can be counted.
    pub fn is_valid(&self) -> (ok: bool)
        ensures
            ok == self.valid(),
    {
        stacks(self.num_attention_heads, self.num_key_value_heads, self.head_dim)
            && self.intermediate_size <= usize::MAX / 2
    }
}

impl<'a, S> TalkerLayerWeights<'a, S> {
    /// Whether the projections have the shapes the geometry gives them.
    pub fn has_expected_projections(&self, config: &TalkerConfig<S>) -> (ok: bool)
        requires
            config.valid(),
        ensures
            ok == self.projections_fit(*config),
    {
        proof {
            config.lemma_widths();
        }
        let hidden: usize = config.hidden_size;
        let inner: usize = config.intermediate_size;
        let queries: usize = config.query_width();
        let keys: usize = config.kv_width();
        is_product(queries, hidden, self.q_proj.len()) && is_product(
            keys,
            hidden,
            self.k_proj.len(),
        ) && is_product(keys, hidden, self.v_proj.len()) && is_product(
            hidden,
            queries,
            self.o_proj.len(),
        ) && is_product(inner, hidden, self.gate_proj.len()) && is_product(
            inner,
            hidden,
            self.up_proj.len(),
        ) && is_product(hidden, inner, self.down_proj.len())
    }
}

impl<'a, S> LayerWeights<'a, S> {
    /// Whether the norms have the shapes the geometry gives them.
    pub fn has_expected_norms(&self, config: &MicrodecoderConfig<S>) -> (ok: bool)
        ensures
            ok == self.norms_fit(*config),
    {
        self.input_norm.len() == config.hidden_size && self.q_norm.len() == config.head_dim
            && self.k_norm.len() == config.head_dim && self.post_attention_norm.len()
            == config.hidden_size
    }

    /// Whether every weight has the shape the geometry gives it.
    pub fn has_expected_shapes(&self, config: &MicrodecoderConfig<S>) -> (ok: bool)
        requires
            config.valid(),
        ensures
            ok == self.fits(*config),
    {
        proof {
            layer::lemma_widths(*config);
        }
        let hidden: usize = config.hidden_size;
        let inner: usize = config.intermediate_size;
        let queries: usize = config.q_width();
        let keys: usize = config.kv_width();
        self.has_expected_norms(config) && is_product(queries, hidden, self.q_proj.len())
            && is_product(keys, hidden, self.k_proj.len()) && is_product(
            keys,
            hidden,
            self.v_proj.len(),
        ) && is_product(hidden, queries, self.o_proj.len()) && is_product(
            inner,
            hidden,
            self.gate_proj.len(),
        ) && is_product(inner, hidden, self.up_proj.len()) && is_product(
            hidden,
            inner,
            self.down_proj.len(),
        )
    }
}

impl<Q: Quantized> MicroLayerQuant<Q> {
    /// Whether every matrix has the shape the geometry gives it.
    pub fn has_expected_shapes(&self, config: &MicrodecoderConfig<Q::Scalar>) -> (ok: bool)
        requires
            config.valid(),
        ensures
            ok == self.fits(*config),
    {
        proof {
            layer::lemma_widths(*config);
        }
        let hidden: usize = config.hidden_size;
        let inner: usize = config.intermediate_size;
        let queries: usize = config.q_width();
        let keys: usize = config.kv_width();
        self.qkv.n() == queries + 2 * keys && self.qkv.k() == hidden && self.o_proj.n() == hidden
            && self.o_proj.k() == queries && self.gate_up.n() == 2 * inner && self.gate_up.k()
            == hidden && self.down_proj.n() == hidden && self.down_proj.k() == inner
    }
}

impl<'a, S> MicrodecoderWeights<'a, S> {
    /// Whether tables, heads and norms have the counts and shapes the geometry gives them, and the
    /// layers' projections theirs, unless they are packed.
    pub fn has_expected_shapes(&self, config: &MicrodecoderConfig<S>, packed: bool) -> (ok: bool)
        requires
            config.valid(),
        ensures
            ok == self.fits(*config, packed),
    {
        if self.layers.len() != config.num_layers || self.heads.len() != RESIDUAL_DEPTHS
            || self.residual_embeddings.len() != RESIDUAL_DEPTHS - 1 || self.final_norm.len()
            != config.hidden_size {
            return false;
        }
        for i in 0..self.layers.len()
            invariant
                config.valid(),
                forall|j: int|
                    0 <= j < i ==> {
                        &&& (#[trigger] self.layers@[j]).norms_fit(*config)
                        &&& packed || self.layers@[j].fits(*config)
                    },
        {
            let layer = &self.layers[i];
            let ok = layer.has_expected_norms(config) && (packed || layer.has_expected_shapes(
                config,
            ));
            if !ok {
                proof {
                    assert(!(self.layers@[i as int].norms_fit(*config) && (packed
                        || self.layers@[i as int].fits(*config))));
                }
                return false;
            }
        }
        for i in 0..self.heads.len()
            invariant
                forall|j: int|
                    0 <= j < i ==> (#[trigger] self.heads@[j])@.len() == RESIDUAL_VOCAB
                        * config.hidden_size,
        {
            if !is_product(RESIDUAL_VOCAB, config.hidden_size, self.heads[i].len()) {
                proof {
                    assert(self.heads@[i as int]@.len() != RESIDUAL_VOCAB * config.hidden_size);
                }
                return false;
            }
        }
        for i in 0..self.residual_embeddings.len()
            invariant
                forall|j: int|
                    0 <= j < i ==> (#[trigger] self.residual_embeddings@[j])@.len()
                        >= RESIDUAL_VOCAB * config.hidden_size,
        {
            if !holds_rows(self.residual_embeddings[i].len(), RESIDUAL_VOCAB, config.hidden_size) {
                proof {
                    assert(self.residual_embeddings@[i as int]@.len() < RESIDUAL_VOCAB
                        * config.hidden_size);
                }
                return false;
            }
        }
        true
    }
}

/// Whether `len` values hold `rows` rows of `width`.
fn holds_rows(len: usize, rows: usize, width: usize) -> (ok: bool)
    ensures
        ok == (len >= rows * width),
{
    match rows.checked_mul(width) {
        Some(needed) => len >= needed,
        None => false,
    }
}

impl<'a, Q: Quantized> MicroQuantRoute<'a, Q> {
    /// Whether the route packs every layer, and every head or none.
    pub fn has_expected_shapes(&self, config: &MicrodecoderConfig<Q::Scalar>) -> (ok: bool)
        requires
            config.valid(),
        ensures
            ok == self@.fits(*config),
    {
        if self.layers.len() != config.num_layers {
            return false;
        }
        for i in 0..self.layers.len()
            invariant
                config.valid(),
                forall|j: int| 0 <= j < i ==> (#[trigger] self.layers@[j]).fits(*config),
        {
            if !self.layers[i].has_expected_shapes(config) {
                proof {
                    assert(!self@.layers[i as int].fits(*config));
                }
                return false;
            }
        }
        match self.heads {
            None => true,
            Some(heads) => {
                if heads.len() != RESIDUAL_DEPTHS {
                    return false;
                }
                for i in 0..heads.len()
                    invariant
                        self.heads == Some(heads),
                        self@.heads == Some(heads@),
                        forall|j: int|
                            0 <= j < i ==> {
                                &&& (#[trigger] heads@[j]).outputs() == RESIDUAL_VOCAB
                                &&& heads@[j].inputs() == config.hidden_size
                            },
                {
                    if heads[i].n() != RESIDUAL_VOCAB || heads[i].k() != config.hidden_size {
                        proof {
                            assert(!(heads@[i as int].outputs() == RESIDUAL_VOCAB
                                && heads@[i as int].inputs() == config.hidden_size));
                        }
                        return false;
                    }
                }
                true
            },
        }
    }
}

/// Whether everything a frame reads has the shape the geometry gives it, and the primary code a
/// row.
pub fn frame_has_expected_shapes<'a, Q: Quantized>(
    config: &MicrodecoderConfig<Q::Scalar>,
    rope: &RopeTable<Q>,
    weights: &MicrodecoderWeights<'a, Q::Scalar>,
    route: Option<&'a MicroQuantRoute<'a, Q>>,
    talker_hidden: &[Q::Scalar],
    primary_code: usize,
) -> (ok: bool)
    requires
        rope.wf(),
    ensures
        ok == frame::frame_of::<Q>(
            *config,
            *rope,
            *weights,
            route,
            talker_hidden@,
            primary_code,
        ).fits(),
{
    if !config.is_valid() || rope.row_width() != config.head_dim
        || !weights.has_expected_shapes(config, route.is_some()) || talker_hidden.len()
        != config.hidden_size {
        return false;
    }
    let held: usize = weights.talker_codec_embedding.len();
    let width: usize = config.hidden_size;
    let covered = if width == 0 {
        proof {
            assert(primary_code * width == 0) by (nonlinear_arith)
                requires
                    width == 0,
            ;
        }
        true
    } else {
        proof {
            assert(primary_code * width + width == (primary_code + 1) * width)
                by (nonlinear_arith);
            assert(primary_code + 1 <= (primary_code + 1) * width) by (nonlinear_arith)
                requires
                    width > 0,
            ;
        }
        primary_code < usize::MAX && holds_rows(held, primary_code + 1, width)
    };
    covered && match route {
        Some(route) => route.has_expected_shapes(config),
        None => true,
    }
}

impl<'a, S> TextEmbeddingWeights<'a, S> {
    /// Whether the rows, the projection and `hidden` fit each other.
    pub fn has_expected_shapes(&self, hidden: usize) -> (ok: bool)
        ensures
            ok == self.fits(hidden as int),
    {
        if self.embed_width == 0 {
            return false;
        }
        for i in 0..self.gathered.len()
            invariant
                ids::ascending(self.gathered@.take(i as int)),
        {
            if i > 0 && self.gathered[i - 1] >= self.gathered[i] {
                proof {
                    assert(!(self.gathered@[i - 1] < self.gathered@[i as int]));
                }
                return false;
            }
            proof {
                let taken = self.gathered@.take(i as int);
                let more = self.gathered@.take(i + 1);
                assert forall|j: int, k: int| 0 <= j < k < more.len() implies #[trigger] more[j]
                    < #[trigger] more[k] by {
                    if k == i && j < i - 1 {
                        assert(taken[j] < taken[i - 1]);
                    } else if k < i {
                        assert(taken[j] < taken[k]);
                    }
                }
            }
        }
        proof {
            assert(self.gathered@.take(self.gathered@.len() as int) =~= self.gathered@);
        }
        self.table.len() % self.embed_width == 0 && holds_rows(
            self.table.len(),
            self.gathered.len(),
            self.embed_width,
        ) && self.fc2_bias.len() == hidden && is_product(
            self.fc1_bias.len(),
            self.embed_width,
            self.fc1_weight.len(),
        ) && is_product(hidden, self.fc1_bias.len(), self.fc2_weight.len())
    }
}

impl<'a, Q: Quantized, C: ColdTextRows<Q::Scalar>> QwenGeneratorConfig<'a, Q, C> {
    /// Whether tables, rows and projections agree with the talker's width.
    pub fn has_expected_sizes(&self, packed: bool) -> (ok: bool)
        ensures
            ok == self.sized(packed),
    {
        let hidden: usize = self.talker_config.hidden_size;
        if !self.text.has_expected_shapes(hidden) || self.tts_eos.len() != hidden
            || !self.microdecoder_config.is_valid() {
            return false;
        }
        if hidden != self.microdecoder_config.hidden_size || !is_product(
            PRIMARY_CODE_VOCAB_SIZE,
            hidden,
            self.feedback.talker_codec.len(),
        ) || self.feedback.residual.len() != RESIDUAL_DEPTHS || self.header.tts_pad.len() != hidden
            || !self.microdecoder_weights.has_expected_shapes(&self.microdecoder_config, packed)
            || !holds_rows(
            self.microdecoder_weights.talker_codec_embedding.len(),
            PRIMARY_CODE_VOCAB_SIZE,
            hidden,
        ) {
            return false;
        }
        for i in 0..self.feedback.residual.len()
            invariant
                hidden == self.talker_config.hidden_size,
                self.feedback.residual@.len() == RESIDUAL_DEPTHS,
                forall|j: int|
                    0 <= j < i ==> (#[trigger] self.feedback.residual@[j])@.len()
                        == RESIDUAL_VOCAB * hidden,
        {
            if !is_product(RESIDUAL_VOCAB, hidden, self.feedback.residual[i].len()) {
                proof {
                    assert(self.feedback.residual@[i as int]@.len() != RESIDUAL_VOCAB * hidden);
                }
                return false;
            }
        }
        true
    }

    /// Whether everything agrees with the talker's width, a prepared route included.
    pub fn has_expected_shapes(&self, int8: Option<&Int8Route<Q>>) -> (ok: bool)
        ensures
            ok == self.fits(
                match int8 {
                    Some(int8) => int8.packed(),
                    None => None,
                },
            ),
    {
        let route = match int8 {
            Some(int8) => int8.micro_route(),
            None => None,
        };
        self.has_expected_sizes(route.is_some()) && match &route {
            Some(route) => route.has_expected_shapes(&self.microdecoder_config),
            None => true,
        }
    }

    /// Whether a prompt for `n` tokens has countably many positions.
    pub fn is_countable(&self, n: usize) -> (ok: bool)
        ensures
            ok == self.countable(n as int),
    {
        let reference: u128 = match &self.reference {
            Some(reference) => reference.wrapped_ids.len() as u128 + reference.codec.len() as u128,
            None => 0,
        };
        self.header.role.len() as u128 + self.header.codec_prefill.len() as u128 + n as u128
            + reference + 2 <= usize::MAX as u128
    }
}

impl<'a, Q: Quantized + Bits, C: ColdTextRows<Q::Scalar>> QwenGeneratorConfig<'a, Q, C> {
    /// Whether a generator can be made of this.
    pub fn is_buildable<'e>(
        &self,
        settings: &RouteSettings<'e, Q::Mode>,
        artifact: Option<&Artifact>,
    ) -> (ok: bool)
        ensures
            ok == self.buildable(*settings, artifact),
    {
        let (_, micro) = settings.stacks();
        self.has_expected_sizes(micro && self.microdecoder_weights.layers.len() > 0)
            && can_prepare_int8_route::<Q>(
            settings,
            &self.talker_config,
            &self.talker_weights,
            &self.microdecoder_config,
            &self.microdecoder_weights,
            artifact,
        )
    }
}

} // verus!
