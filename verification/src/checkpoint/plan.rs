//! The tensors of a talker checkpoint, in the order in which they are hydrated.
//!
//! First the talker's layers, eleven tensors each, then the microdecoder's, then fifteen residual
//! embeddings, fifteen heads and eight single tensors.
use vstd::prelude::*;
use vstd::string::StringExecFns;
use crate::checkpoint::{HotElision, ShapeSpec, TALKER_HIDDEN, TEXT_EMBED_WIDTH};
use crate::microdecoder::layer;
use crate::microdecoder::MicrodecoderConfig;
use crate::storage::{Artifact, StoredDtype};
use crate::talker::TalkerConfig;
use crate::text;
use crate::text::join_number;

verus! {

/// Tensors per attention layer.
pub const LAYER_TENSORS: usize = 11;

/// Layers of the microdecoder.
pub const MICRO_LAYER_COUNT: usize = 5;

/// Where the microdecoder's layers start.
pub const MICRO_BASE: usize = 308;

/// Where the residual embeddings start.
pub const TABLE_BASE: usize = 363;

/// Where the heads start.
pub const HEAD_BASE: usize = 378;

/// Where the single tensors start.
pub const SINGLE_BASE: usize = 393;

/// How many tensors there are.
pub const TENSOR_COUNT: usize = 401;

/// The widths of one attention stack.
#[derive(Clone, Copy, Debug, PartialEq, Eq)]
pub struct StackShape {
    /// Model width.
    pub hidden: usize,
    /// Query width.
    pub query: usize,
    /// Key/value width.
    pub key: usize,
    /// Width of one head.
    pub head: usize,
    /// Width inside the feed-forward branch.
    pub inner: usize,
}

impl StackShape {
    /// The widths of a talker.
    pub fn of_talker<S>(config: &TalkerConfig<S>) -> (shape: Self)
        requires
            config.valid(),
        ensures
            shape.hidden == config.hidden_size,
            shape.query == config.queries(),
            shape.key == config.keys(),
            shape.head == config.head_dim,
            shape.inner == config.intermediate_size,
    {
        proof {
            config.lemma_widths();
        }
        StackShape {
            hidden: config.hidden_size,
            query: config.query_width(),
            key: config.kv_width(),
            head: config.head_dim,
            inner: config.intermediate_size,
        }
    }

    /// The widths of a microdecoder.
    pub fn of_microdecoder<S>(config: &MicrodecoderConfig<S>) -> (shape: Self)
        requires
            config.valid(),
        ensures
            shape.hidden == config.hidden_size,
            shape.query == config.queries(),
            shape.key == config.keys(),
            shape.head == config.head_dim,
            shape.inner == config.intermediate_size,
    {
        proof {
            layer::lemma_widths(*config);
        }
        StackShape {
            hidden: config.hidden_size,
            query: config.q_width(),
            key: config.kv_width(),
            head: config.head_dim,
            inner: config.intermediate_size,
        }
    }

    /// That one more than each width can be counted.
    pub open spec fn countable(&self) -> bool {
        &&& self.hidden < usize::MAX
        &&& self.query < usize::MAX
        &&& self.key < usize::MAX
        &&& self.head < usize::MAX
        &&& self.inner < usize::MAX
    }

    /// Whether one more than each width can be counted.
    pub fn is_countable(&self) -> (ok: bool)
        ensures
            ok == self.countable(),
    {
        self.hidden < usize::MAX && self.query < usize::MAX && self.key < usize::MAX && self.head
            < usize::MAX && self.inner < usize::MAX
    }
}

/// The end of the name of tensor `j` of a layer.
pub open spec fn suffix_of(j: int) -> Seq<char> {
    if j == 0 {
        ".input_layernorm.weight"@
    } else if j == 1 {
        ".self_attn.q_proj.weight"@
    } else if j == 2 {
        ".self_attn.k_proj.weight"@
    } else if j == 3 {
        ".self_attn.v_proj.weight"@
    } else if j == 4 {
        ".self_attn.q_norm.weight"@
    } else if j == 5 {
        ".self_attn.k_norm.weight"@
    } else if j == 6 {
        ".self_attn.o_proj.weight"@
    } else if j == 7 {
        ".post_attention_layernorm.weight"@
    } else if j == 8 {
        ".mlp.gate_proj.weight"@
    } else if j == 9 {
        ".mlp.up_proj.weight"@
    } else {
        ".mlp.down_proj.weight"@
    }
}

/// The end of the name of tensor `j` of a layer.
fn suffix(j: usize) -> (text: &'static str)
    requires
        j < LAYER_TENSORS,
    ensures
        text@ == suffix_of(j as int),
{
    if j == 0 {
        ".input_layernorm.weight"
    } else if j == 1 {
        ".self_attn.q_proj.weight"
    } else if j == 2 {
        ".self_attn.k_proj.weight"
    } else if j == 3 {
        ".self_attn.v_proj.weight"
    } else if j == 4 {
        ".self_attn.q_norm.weight"
    } else if j == 5 {
        ".self_attn.k_norm.weight"
    } else if j == 6 {
        ".self_attn.o_proj.weight"
    } else if j == 7 {
        ".post_attention_layernorm.weight"
    } else if j == 8 {
        ".mlp.gate_proj.weight"
    } else if j == 9 {
        ".mlp.up_proj.weight"
    } else {
        ".mlp.down_proj.weight"
    }
}

/// That tensor `j` of a layer is a projection, which an eight-bit stack never reads widened.
pub open spec fn is_hot(j: int) -> bool {
    j == 1 || j == 2 || j == 3 || j == 6 || j == 8 || j == 9 || j == 10
}

/// The axes of tensor `j` of a layer.
pub open spec fn layer_axes(shape: StackShape, j: int) -> ShapeSpec {
    if j == 0 || j == 7 {
        ShapeSpec::Vector(shape.hidden)
    } else if j == 1 {
        ShapeSpec::Matrix { rows: Some(shape.query), cols: shape.hidden }
    } else if j == 2 || j == 3 {
        ShapeSpec::Matrix { rows: Some(shape.key), cols: shape.hidden }
    } else if j == 4 || j == 5 {
        ShapeSpec::Vector(shape.head)
    } else if j == 6 {
        ShapeSpec::Matrix { rows: Some(shape.hidden), cols: shape.query }
    } else if j == 8 || j == 9 {
        ShapeSpec::Matrix { rows: Some(shape.inner), cols: shape.hidden }
    } else {
        ShapeSpec::Matrix { rows: Some(shape.hidden), cols: shape.inner }
    }
}

/// The axes of tensor `j` of a layer.
fn layer_shape(shape: &StackShape, j: usize) -> (axes: ShapeSpec)
    requires
        j < LAYER_TENSORS,
    ensures
        axes == layer_axes(*shape, j as int),
{
    if j == 0 || j == 7 {
        ShapeSpec::Vector(shape.hidden)
    } else if j == 1 {
        ShapeSpec::Matrix { rows: Some(shape.query), cols: shape.hidden }
    } else if j == 2 || j == 3 {
        ShapeSpec::Matrix { rows: Some(shape.key), cols: shape.hidden }
    } else if j == 4 || j == 5 {
        ShapeSpec::Vector(shape.head)
    } else if j == 6 {
        ShapeSpec::Matrix { rows: Some(shape.hidden), cols: shape.query }
    } else if j == 8 || j == 9 {
        ShapeSpec::Matrix { rows: Some(shape.inner), cols: shape.hidden }
    } else {
        ShapeSpec::Matrix { rows: Some(shape.hidden), cols: shape.inner }
    }
}

/// The name of tensor `j` of a layer.
pub open spec fn layer_name(prefix: Seq<char>, layer: int, j: int) -> Seq<char> {
    prefix + text::decimal_of(layer as nat) + suffix_of(j)
}

/// The name of a single tensor.
pub open spec fn single_name(k: int) -> Seq<char> {
    if k == 0 {
        "talker.model.norm.weight"@
    } else if k == 1 {
        "talker.codec_head.weight"@
    } else if k == 2 {
        "talker.model.codec_embedding.weight"@
    } else if k == 3 {
        "talker.code_predictor.model.norm.weight"@
    } else if k == 4 {
        "talker.text_projection.linear_fc1.weight"@
    } else if k == 5 {
        "talker.text_projection.linear_fc1.bias"@
    } else if k == 6 {
        "talker.text_projection.linear_fc2.weight"@
    } else {
        "talker.text_projection.linear_fc2.bias"@
    }
}

/// The axes of a single tensor.
pub open spec fn single_axes(k: int) -> ShapeSpec {
    if k == 0 || k == 3 || k == 7 {
        ShapeSpec::Vector(TALKER_HIDDEN)
    } else if k == 1 || k == 2 {
        ShapeSpec::Matrix { rows: None, cols: TALKER_HIDDEN }
    } else if k == 4 {
        ShapeSpec::Matrix { rows: Some(TEXT_EMBED_WIDTH), cols: TEXT_EMBED_WIDTH }
    } else if k == 5 {
        ShapeSpec::Vector(TEXT_EMBED_WIDTH)
    } else {
        ShapeSpec::Matrix { rows: Some(TALKER_HIDDEN), cols: TEXT_EMBED_WIDTH }
    }
}

/// The name of tensor `i`.
pub open spec fn name_of(i: int) -> Seq<char> {
    if i < MICRO_BASE {
        layer_name("talker.model.layers."@, i / 11, i % 11)
    } else if i < TABLE_BASE {
        layer_name(
            "talker.code_predictor.model.layers."@,
            (i - MICRO_BASE) / 11,
            (i - MICRO_BASE) % 11,
        )
    } else if i < HEAD_BASE {
        "talker.code_predictor.model.codec_embedding."@ + text::decimal_of(
            (i - TABLE_BASE) as nat,
        ) + ".weight"@
    } else if i < SINGLE_BASE {
        "talker.code_predictor.lm_head."@ + text::decimal_of((i - HEAD_BASE) as nat) + ".weight"@
    } else {
        single_name(i - SINGLE_BASE)
    }
}

/// The axes of tensor `i`.
pub open spec fn axes_of(talker: StackShape, micro: StackShape, i: int) -> ShapeSpec {
    if i < MICRO_BASE {
        layer_axes(talker, i % 11)
    } else if i < TABLE_BASE {
        layer_axes(micro, (i - MICRO_BASE) % 11)
    } else if i < SINGLE_BASE {
        ShapeSpec::Matrix { rows: None, cols: TALKER_HIDDEN }
    } else {
        single_axes(i - SINGLE_BASE)
    }
}

/// That an artifact holds a tensor in eight bits with scales.
pub open spec fn holds_q8(artifact: Artifact, name: Seq<char>) -> bool {
    artifact.found(name) matches Some(entry) && entry.is_q8()
}

/// That an artifact holds every projection of a layer in eight bits.
pub open spec fn layer_is_q8(artifact: Artifact, prefix: Seq<char>, layer: int) -> bool {
    forall|j: int|
        0 <= j < LAYER_TENSORS && is_hot(j) ==> holds_q8(
            artifact,
            #[trigger] layer_name(prefix, layer, j),
        )
}

/// That tensor `i` is left unwidened. One projection that is not held in eight bits keeps its
/// whole layer widened: the layer is then packed anew from the widened copies.
pub open spec fn elided(artifact: Artifact, elision: HotElision, i: int) -> bool {
    if i < MICRO_BASE {
        elision.talker && is_hot(i % 11) && layer_is_q8(
            artifact,
            "talker.model.layers."@,
            i / 11,
        )
    } else if i < TABLE_BASE {
        elision.micro && is_hot((i - MICRO_BASE) % 11) && layer_is_q8(
            artifact,
            "talker.code_predictor.model.layers."@,
            (i - MICRO_BASE) / 11,
        )
    } else {
        false
    }
}

/// A layer is elided as a whole: all its projections, or none of them.
pub proof fn law_layers_are_elided_whole(
    artifact: Artifact,
    elision: HotElision,
    layer: int,
    a: int,
    b: int,
)
    requires
        0 <= layer,
        layer * 11 + 10 < TABLE_BASE,
        0 <= a < LAYER_TENSORS,
        0 <= b < LAYER_TENSORS,
        is_hot(a),
        is_hot(b),
    ensures
        elided(artifact, elision, layer * 11 + a) == elided(artifact, elision, layer * 11 + b),
{
    assert((layer * 11 + a) / 11 == layer && (layer * 11 + a) % 11 == a);
    assert((layer * 11 + b) / 11 == layer && (layer * 11 + b) % 11 == b);
    if layer * 11 >= MICRO_BASE {
        assert((layer * 11 + a - MICRO_BASE) / 11 == layer - 28);
        assert((layer * 11 + b - MICRO_BASE) / 11 == layer - 28);
        assert((layer * 11 + a - MICRO_BASE) % 11 == a);
        assert((layer * 11 + b - MICRO_BASE) % 11 == b);
    }
}

/// Norms, tables, heads and single tensors are never left unwidened.
pub proof fn law_only_projections_are_elided(artifact: Artifact, elision: HotElision, i: int)
    requires
        elided(artifact, elision, i),
    ensures
        i < TABLE_BASE,
        is_hot(if i < MICRO_BASE {
            i % 11
        } else {
            (i - MICRO_BASE) % 11
        }),
{
}

/// The name of tensor `j` of a layer.
pub fn layer_tensor_name(prefix: &str, layer: usize, j: usize) -> (name: String)
    requires
        j < LAYER_TENSORS,
    ensures
        name@ == layer_name(prefix@, layer as int, j as int),
{
    join_number(prefix, layer, suffix(j))
}

/// The name of tensor `i`.
pub fn tensor_name(i: usize) -> (name: String)
    requires
        i < TENSOR_COUNT,
    ensures
        name@ == name_of(i as int),
{
    if i < MICRO_BASE {
        layer_tensor_name("talker.model.layers.", i / 11, i % 11)
    } else if i < TABLE_BASE {
        layer_tensor_name(
            "talker.code_predictor.model.layers.",
            (i - MICRO_BASE) / 11,
            (i - MICRO_BASE) % 11,
        )
    } else if i < HEAD_BASE {
        join_number("talker.code_predictor.model.codec_embedding.", i - TABLE_BASE, ".weight")
    } else if i < SINGLE_BASE {
        join_number("talker.code_predictor.lm_head.", i - HEAD_BASE, ".weight")
    } else {
        let k: usize = i - SINGLE_BASE;
        if k == 0 {
            String::from_str("talker.model.norm.weight")
        } else if k == 1 {
            String::from_str("talker.codec_head.weight")
        } else if k == 2 {
            String::from_str("talker.model.codec_embedding.weight")
        } else if k == 3 {
            String::from_str("talker.code_predictor.model.norm.weight")
        } else if k == 4 {
            String::from_str("talker.text_projection.linear_fc1.weight")
        } else if k == 5 {
            String::from_str("talker.text_projection.linear_fc1.bias")
        } else if k == 6 {
            String::from_str("talker.text_projection.linear_fc2.weight")
        } else {
            String::from_str("talker.text_projection.linear_fc2.bias")
        }
    }
}

/// The axes of tensor `i`.
pub fn tensor_axes(talker: &StackShape, micro: &StackShape, i: usize) -> (axes: ShapeSpec)
    requires
        i < TENSOR_COUNT,
    ensures
        axes == axes_of(*talker, *micro, i as int),
{
    if i < MICRO_BASE {
        layer_shape(talker, i % 11)
    } else if i < TABLE_BASE {
        layer_shape(micro, (i - MICRO_BASE) % 11)
    } else if i < SINGLE_BASE {
        ShapeSpec::Matrix { rows: None, cols: TALKER_HIDDEN }
    } else {
        let k: usize = i - SINGLE_BASE;
        if k == 0 || k == 3 || k == 7 {
            ShapeSpec::Vector(TALKER_HIDDEN)
        } else if k == 1 || k == 2 {
            ShapeSpec::Matrix { rows: None, cols: TALKER_HIDDEN }
        } else if k == 4 {
            ShapeSpec::Matrix { rows: Some(TEXT_EMBED_WIDTH), cols: TEXT_EMBED_WIDTH }
        } else if k == 5 {
            ShapeSpec::Vector(TEXT_EMBED_WIDTH)
        } else {
            ShapeSpec::Matrix { rows: Some(TALKER_HIDDEN), cols: TEXT_EMBED_WIDTH }
        }
    }
}

/// Whether tensor `j` of a layer is a projection.
fn hot(j: usize) -> (hot: bool)
    ensures
        hot == is_hot(j as int),
{
    j == 1 || j == 2 || j == 3 || j == 6 || j == 8 || j == 9 || j == 10
}

/// Whether an artifact holds every projection of a layer in eight bits.
fn check_layer_is_q8(artifact: &Artifact, prefix: &str, layer: usize) -> (all: bool)
    ensures
        all == layer_is_q8(*artifact, prefix@, layer as int),
{
    for j in 0..LAYER_TENSORS
        invariant
            forall|k: int|
                0 <= k < j && is_hot(k) ==> holds_q8(
                    *artifact,
                    #[trigger] layer_name(prefix@, layer as int, k),
                ),
    {
        if hot(j) {
            let name = layer_tensor_name(prefix, layer, j);
            let held = match artifact.tensor(name.as_str()) {
                None => false,
                Some(entry) => entry.dtype == StoredDtype::Q8 && entry.scales.is_some(),
            };
            if !held {
                proof {
                    assert(!holds_q8(*artifact, layer_name(prefix@, layer as int, j as int)));
                }
                return false;
            }
        }
    }
    true
}

/// Whether tensor `i` is left unwidened.
pub fn tensor_elided(artifact: &Artifact, elision: HotElision, i: usize) -> (skip: bool)
    requires
        i < TENSOR_COUNT,
    ensures
        skip == elided(*artifact, elision, i as int),
{
    if i < MICRO_BASE {
        elision.talker && hot(i % 11) && check_layer_is_q8(
            artifact,
            "talker.model.layers.",
            i / 11,
        )
    } else if i < TABLE_BASE {
        elision.micro && hot((i - MICRO_BASE) % 11) && check_layer_is_q8(
            artifact,
            "talker.code_predictor.model.layers.",
            (i - MICRO_BASE) / 11,
        )
    } else {
        false
    }
}

} // verus!
