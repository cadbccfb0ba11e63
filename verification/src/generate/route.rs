//! The eight-bit route: which stacks run on packed projections, and where those come from.
use vstd::prelude::*;
use crate::checkpoint::HotElision;
use crate::codec::quantizer::is_product;
use crate::microdecoder::frame::{MicroQuantRoute, MicrodecoderWeights, PackedRoute};
use crate::microdecoder::layer;
use crate::microdecoder::layer::{LayerWeights, MicroLayerQuant};
use crate::microdecoder::{MicrodecoderConfig, RESIDUAL_VOCAB};
use crate::quant;
use crate::quant::{Quantized, QuantizedMatrix};
use crate::storage;
use crate::storage::{same_text, signed, widen_singles, Artifact, Bits, StoredDtype};
use crate::talker::{TalkerConfig, TalkerLayerQuant, TalkerLayerWeights, TalkerWeights};
use crate::text;
use crate::text::{join, join_number, numbered};

verus! {

/// Which stacks a scope arms: the talker, and the microdecoder. Anything but the name of one
/// stack arms both.
pub open spec fn armed_by(scope: Seq<char>) -> (bool, bool) {
    if scope == "talker"@ {
        (true, false)
    } else if scope == "micro"@ {
        (false, true)
    } else {
        (true, true)
    }
}

/// Which stacks a scope arms.
fn arms(scope: &str) -> (armed: (bool, bool))
    ensures
        armed == armed_by(scope@),
{
    if same_text(scope, "talker") {
        (true, false)
    } else if same_text(scope, "micro") {
        (false, true)
    } else {
        (true, true)
    }
}

/// What a process decides about the eight-bit route.
#[derive(Clone, Copy, Debug)]
pub struct RouteSettings<'e, M> {
    /// Whether the route is chosen at all.
    pub armed: bool,
    /// The word that decides whether packed tensors are read from the artifact.
    pub artifact_q8: Option<&'e str>,
    /// Which stacks run packed.
    pub scope: &'e str,
    /// The kernel that runs them.
    pub mode: M,
}

impl<'e, M> RouteSettings<'e, M> {
    /// That the talker runs packed.
    pub open spec fn talker(&self) -> bool {
        self.armed && armed_by(self.scope@).0
    }

    /// That the microdecoder runs packed.
    pub open spec fn micro(&self) -> bool {
        self.armed && armed_by(self.scope@).1
    }

    /// The artifact, where it is read.
    pub open spec fn read<'b>(&self, artifact: Option<&'b Artifact>) -> Option<&'b Artifact> {
        if reads_artifact(
            match self.artifact_q8 {
                Some(word) => Some(word@),
                None => None,
            },
        ) {
            artifact
        } else {
            None
        }
    }

    /// Which stacks run packed: the talker, and the microdecoder.
    pub fn stacks(&self) -> (stacks: (bool, bool))
        ensures
            stacks == (self.talker(), self.micro()),
    {
        if self.armed {
            arms(self.scope)
        } else {
            (false, false)
        }
    }

    /// The artifact, where it is read.
    fn source<'b>(&self, artifact: Option<&'b Artifact>) -> (read: Option<&'b Artifact>)
        ensures
            read == self.read(artifact),
    {
        if artifact_q8_enabled(self.artifact_q8) {
            artifact
        } else {
            None
        }
    }
}

/// That packed tensors are read from the artifact: unless the setting turns it off.
pub open spec fn reads_artifact(setting: Option<Seq<char>>) -> bool {
    match setting {
        Some(word) => word != "0"@ && word != "off"@ && word != "false"@,
        None => true,
    }
}

/// Whether packed tensors are read from the artifact.
pub fn artifact_q8_enabled(setting: Option<&str>) -> (enabled: bool)
    ensures
        enabled == reads_artifact(
            match setting {
                Some(word) => Some(word@),
                None => None,
            },
        ),
{
    match setting {
        Some(word) => !same_text(word, "0") && !same_text(word, "off") && !same_text(word, "false"),
        None => true,
    }
}

/// Which projections need not be widened at load time: those of a stack that will run on packed
/// ones read from the artifact.
pub fn hot_elision_from_environment(armed: bool, setting: Option<&str>, scope: &str) -> (elision:
    HotElision)
    ensures
        ({
            let reads = armed && reads_artifact(
                match setting {
                    Some(word) => Some(word@),
                    None => None,
                },
            );
            &&& elision.talker == (reads && armed_by(scope@).0)
            &&& elision.micro == (reads && armed_by(scope@).1)
        }),
{
    if !armed || !artifact_q8_enabled(setting) {
        return HotElision { talker: false, micro: false };
    }
    let (talker, micro) = arms(scope);
    HotElision { talker, micro }
}

/// The payload and the scales of a packed `[n, k]` tensor, where the artifact holds one.
pub open spec fn stored_of(artifact: Artifact, name: Seq<char>, n: int, k: int) -> Option<
    (Seq<u8>, Seq<u8>),
> {
    match artifact.found(name) {
        Some(tensor) => match (tensor.dtype, tensor.scales, tensor.payload) {
            (StoredDtype::Q8, Some(scales), Ok(payload)) => match artifact.found(scales@) {
                Some(other) => match other.payload {
                    Ok(values) => if payload@.len() == n * k && values@.len() == n * 4 {
                        Some((payload@, values@))
                    } else {
                        None
                    },
                    Err(_) => None,
                },
                None => None,
            },
            _ => None,
        },
        None => None,
    }
}

/// The whole numbers of a payload.
pub open spec fn wholes_of(payload: Seq<u8>) -> Seq<i8> {
    Seq::new(payload.len(), |i: int| storage::signed_of(payload[i]))
}

/// A packed tensor as the engine holds it.
pub open spec fn stored_matrix<E: Quantized + Bits>(
    artifact: Artifact,
    name: Seq<char>,
    n: int,
    k: int,
) -> E::Matrix {
    let (payload, scales) = stored_of(artifact, name, n, k)->0;
    quant::assembled::<E>(
        wholes_of(payload),
        storage::singles_of::<E>(scales),
        n as usize,
        k as usize,
    )
}

/// That packing and reading are functions of their arguments.
pub open spec fn exact_route<E: Quantized + Bits>() -> bool {
    quant::pure_quant::<E>() && storage::pure_bits::<E>()
}

/// Reads one packed tensor.
///
/// Whatever keeps it from being read (another storage, no scales, another size) leaves the caller
/// to pack the widened weights instead.
pub fn q8_from_artifact<E: Quantized + Bits>(
    artifact: &Artifact,
    name: &str,
    n: usize,
    k: usize,
) -> (matrix: Option<QuantizedMatrix<E>>)
    ensures
        (matrix is Some) == (stored_of(*artifact, name@, n as int, k as int) is Some),
        matrix matches Some(m) ==> {
            &&& m.outputs() == n
            &&& m.inputs() == k
            &&& exact_route::<E>() ==> m.data() == stored_matrix::<E>(
                *artifact,
                name@,
                n as int,
                k as int,
            )
        },
{
    let tensor = match artifact.tensor(name) {
        Some(tensor) => tensor,
        None => {
            return None;
        },
    };
    match tensor.dtype {
        StoredDtype::Q8 => {},
        _ => {
            return None;
        },
    }
    let scales_name = match &tensor.scales {
        Some(scales_name) => scales_name,
        None => {
            return None;
        },
    };
    let payload = match &tensor.payload {
        Ok(payload) => payload,
        Err(_) => {
            return None;
        },
    };
    let expected = match n.checked_mul(k) {
        Some(expected) => expected,
        None => {
            return None;
        },
    };
    if payload.len() != expected {
        return None;
    }
    let other = match artifact.tensor(scales_name.as_str()) {
        Some(other) => other,
        None => {
            return None;
        },
    };
    let scales = match &other.payload {
        Ok(scales) => scales,
        Err(_) => {
            return None;
        },
    };
    let held: usize = scales.len();
    let expected = match n.checked_mul(4) {
        Some(expected) => expected,
        None => {
            return None;
        },
    };
    if held != expected {
        return None;
    }
    let mut values: Vec<i8> = Vec::new();
    for i in 0..payload.len()
        invariant
            values@.len() == i,
            forall|j: int| 0 <= j < i ==> #[trigger] values@[j] == storage::signed_of(payload@[j]),
    {
        values.push(signed(payload[i]));
    }
    proof {
        assert(values@ =~= wholes_of(payload@));
    }
    let numbers = widen_singles::<E>(scales.as_slice());
    Some(QuantizedMatrix::<E>::from_parts(values.as_slice(), numbers.as_slice(), n, k))
}

/// The widths of one attention layer.
#[derive(Clone, Copy, Debug)]
pub struct LayerWidths {
    /// Model width.
    pub hidden: usize,
    /// Query width.
    pub queries: usize,
    /// Key/value width.
    pub keys: usize,
    /// Width inside the feed-forward branch.
    pub inner: usize,
}

/// Four packed matrices of one layer: query over key over value, output, gate over up, down.
pub struct FusedLayer<Q: Quantized> {
    /// Query over key over value.
    pub qkv: QuantizedMatrix<Q>,
    /// Output.
    pub o_proj: QuantizedMatrix<Q>,
    /// Gate over up.
    pub gate_up: QuantizedMatrix<Q>,
    /// Down.
    pub down_proj: QuantizedMatrix<Q>,
}

impl LayerWidths {
    /// That the stacked widths can be counted.
    pub open spec fn countable(&self) -> bool {
        &&& self.queries + 2 * self.keys <= usize::MAX
        &&& 2 * self.inner <= usize::MAX
    }

    /// That the artifact holds all seven projections of the layer at `base`.
    pub open spec fn stored(&self, artifact: Artifact, base: Seq<char>) -> bool {
        let (hidden, queries) = (self.hidden as int, self.queries as int);
        let (keys, inner) = (self.keys as int, self.inner as int);
        &&& stored_of(artifact, base + ".self_attn.q_proj.weight"@, queries, hidden) is Some
        &&& stored_of(artifact, base + ".self_attn.k_proj.weight"@, keys, hidden) is Some
        &&& stored_of(artifact, base + ".self_attn.v_proj.weight"@, keys, hidden) is Some
        &&& stored_of(artifact, base + ".self_attn.o_proj.weight"@, hidden, queries) is Some
        &&& stored_of(artifact, base + ".mlp.gate_proj.weight"@, inner, hidden) is Some
        &&& stored_of(artifact, base + ".mlp.up_proj.weight"@, inner, hidden) is Some
        &&& stored_of(artifact, base + ".mlp.down_proj.weight"@, hidden, inner) is Some
    }

    /// That the matrices have the layer's shapes.
    pub open spec fn shapes<Q: Quantized>(&self, layer: FusedLayer<Q>) -> bool {
        &&& layer.qkv.outputs() == self.queries + 2 * self.keys
        &&& layer.qkv.inputs() == self.hidden
        &&& layer.o_proj.outputs() == self.hidden
        &&& layer.o_proj.inputs() == self.queries
        &&& layer.gate_up.outputs() == 2 * self.inner
        &&& layer.gate_up.inputs() == self.hidden
        &&& layer.down_proj.outputs() == self.hidden
        &&& layer.down_proj.inputs() == self.inner
    }

    /// That the matrices are those of the artifact.
    pub open spec fn holds<E: Quantized + Bits>(
        &self,
        artifact: Artifact,
        base: Seq<char>,
        layer: FusedLayer<E>,
    ) -> bool {
        let (hidden, queries) = (self.hidden as int, self.queries as int);
        let (keys, inner) = (self.keys as int, self.inner as int);
        &&& layer.qkv.data() == quant::stacked::<E>(
            quant::stacked::<E>(
                stored_matrix::<E>(artifact, base + ".self_attn.q_proj.weight"@, queries, hidden),
                stored_matrix::<E>(artifact, base + ".self_attn.k_proj.weight"@, keys, hidden),
            ),
            stored_matrix::<E>(artifact, base + ".self_attn.v_proj.weight"@, keys, hidden),
        )
        &&& layer.o_proj.data() == stored_matrix::<E>(
            artifact,
            base + ".self_attn.o_proj.weight"@,
            hidden,
            queries,
        )
        &&& layer.gate_up.data() == quant::stacked::<E>(
            stored_matrix::<E>(artifact, base + ".mlp.gate_proj.weight"@, inner, hidden),
            stored_matrix::<E>(artifact, base + ".mlp.up_proj.weight"@, inner, hidden),
        )
        &&& layer.down_proj.data() == stored_matrix::<E>(
            artifact,
            base + ".mlp.down_proj.weight"@,
            hidden,
            inner,
        )
    }
}

/// Reads all seven projections of one layer, or none.
pub fn fused_layer_from_artifact<E: Quantized + Bits>(
    artifact: &Artifact,
    base: &str,
    widths: LayerWidths,
) -> (layer: Option<FusedLayer<E>>)
    requires
        widths.countable(),
    ensures
        (layer is Some) == widths.stored(*artifact, base@),
        layer matches Some(l) ==> {
            &&& widths.shapes(l)
            &&& exact_route::<E>() ==> widths.holds::<E>(*artifact, base@, l)
        },
{
    let (hidden, queries, keys, inner) = (
        widths.hidden,
        widths.queries,
        widths.keys,
        widths.inner,
    );
    let name = join(base, ".self_attn.q_proj.weight");
    let q = match q8_from_artifact::<E>(artifact, name.as_str(), queries, hidden) {
        Some(q) => q,
        None => {
            return None;
        },
    };
    let name = join(base, ".self_attn.k_proj.weight");
    let k = match q8_from_artifact::<E>(artifact, name.as_str(), keys, hidden) {
        Some(k) => k,
        None => {
            return None;
        },
    };
    let name = join(base, ".self_attn.v_proj.weight");
    let v = match q8_from_artifact::<E>(artifact, name.as_str(), keys, hidden) {
        Some(v) => v,
        None => {
            return None;
        },
    };
    let name = join(base, ".self_attn.o_proj.weight");
    let o_proj = match q8_from_artifact::<E>(artifact, name.as_str(), hidden, queries) {
        Some(o_proj) => o_proj,
        None => {
            return None;
        },
    };
    let name = join(base, ".mlp.gate_proj.weight");
    let gate = match q8_from_artifact::<E>(artifact, name.as_str(), inner, hidden) {
        Some(gate) => gate,
        None => {
            return None;
        },
    };
    let name = join(base, ".mlp.up_proj.weight");
    let up = match q8_from_artifact::<E>(artifact, name.as_str(), inner, hidden) {
        Some(up) => up,
        None => {
            return None;
        },
    };
    let name = join(base, ".mlp.down_proj.weight");
    let down_proj = match q8_from_artifact::<E>(artifact, name.as_str(), hidden, inner) {
        Some(down_proj) => down_proj,
        None => {
            return None;
        },
    };
    Some(
        FusedLayer {
            qkv: q.concat_rows(&k).concat_rows(&v),
            o_proj,
            gate_up: gate.concat_rows(&up),
            down_proj,
        },
    )
}

/// Where talker layer `i` stands in an artifact.
pub open spec fn talker_base(i: int) -> Seq<char> {
    "talker.model.layers."@ + text::decimal_of(i as nat)
}

/// Where microdecoder layer `i` stands in an artifact.
pub open spec fn micro_base(i: int) -> Seq<char> {
    "talker.code_predictor.model.layers."@ + text::decimal_of(i as nat)
}

/// Where the microdecoder's head `i` stands in an artifact.
pub open spec fn head_name(i: int) -> Seq<char> {
    "talker.code_predictor.lm_head."@ + text::decimal_of(i as nat) + ".weight"@
}

/// The widths of a talker layer.
pub open spec fn talker_widths<S>(config: TalkerConfig<S>) -> LayerWidths {
    LayerWidths {
        hidden: config.hidden_size,
        queries: config.queries() as usize,
        keys: config.keys() as usize,
        inner: config.intermediate_size,
    }
}

/// The widths of a microdecoder layer.
pub open spec fn micro_widths<S>(config: MicrodecoderConfig<S>) -> LayerWidths {
    LayerWidths {
        hidden: config.hidden_size,
        queries: config.queries() as usize,
        keys: config.keys() as usize,
        inner: config.intermediate_size,
    }
}

/// The matrices of a talker layer.
pub open spec fn talker_fused<Q: Quantized>(layer: TalkerLayerQuant<Q>) -> FusedLayer<Q> {
    FusedLayer {
        qkv: layer.qkv,
        o_proj: layer.o_proj,
        gate_up: layer.gate_up,
        down_proj: layer.down_proj,
    }
}

/// The matrices of a microdecoder layer.
pub open spec fn micro_fused<Q: Quantized>(layer: MicroLayerQuant<Q>) -> FusedLayer<Q> {
    FusedLayer {
        qkv: layer.qkv,
        o_proj: layer.o_proj,
        gate_up: layer.gate_up,
        down_proj: layer.down_proj,
    }
}

/// Reads one talker layer.
fn talker_layer_from_artifact<E: Quantized + Bits>(
    artifact: &Artifact,
    config: &TalkerConfig<E::Scalar>,
    index: usize,
) -> (layer: Option<TalkerLayerQuant<E>>)
    requires
        config.valid(),
    ensures
        (layer is Some) == talker_widths(*config).stored(*artifact, talker_base(index as int)),
        layer matches Some(l) ==> {
            &&& l.fits(*config)
            &&& exact_route::<E>() ==> talker_widths(*config).holds::<E>(
                *artifact,
                talker_base(index as int),
                talker_fused(l),
            )
        },
{
    proof {
        config.lemma_widths();
    }
    let base = numbered("talker.model.layers.", index);
    let widths = LayerWidths {
        hidden: config.hidden_size,
        queries: config.query_width(),
        keys: config.kv_width(),
        inner: config.intermediate_size,
    };
    match fused_layer_from_artifact::<E>(artifact, base.as_str(), widths) {
        Some(layer) => Some(
            TalkerLayerQuant {
                qkv: layer.qkv,
                o_proj: layer.o_proj,
                gate_up: layer.gate_up,
                down_proj: layer.down_proj,
            },
        ),
        None => None,
    }
}

/// Reads one microdecoder layer.
fn micro_layer_from_artifact<E: Quantized + Bits>(
    artifact: &Artifact,
    config: &MicrodecoderConfig<E::Scalar>,
    index: usize,
) -> (layer: Option<MicroLayerQuant<E>>)
    requires
        config.valid(),
    ensures
        (layer is Some) == micro_widths(*config).stored(*artifact, micro_base(index as int)),
        layer matches Some(l) ==> {
            &&& l.fits(*config)
            &&& exact_route::<E>() ==> micro_widths(*config).holds::<E>(
                *artifact,
                micro_base(index as int),
                micro_fused(l),
            )
        },
{
    proof {
        layer::lemma_widths(*config);
    }
    let base = numbered("talker.code_predictor.model.layers.", index);
    let widths = LayerWidths {
        hidden: config.hidden_size,
        queries: config.q_width(),
        keys: config.kv_width(),
        inner: config.intermediate_size,
    };
    match fused_layer_from_artifact::<E>(artifact, base.as_str(), widths) {
        Some(layer) => Some(
            MicroLayerQuant {
                qkv: layer.qkv,
                o_proj: layer.o_proj,
                gate_up: layer.gate_up,
                down_proj: layer.down_proj,
            },
        ),
        None => None,
    }
}

/// Every talker layer's packed matrices, where the artifact holds them all.
pub fn talker_layers_from_artifact<E: Quantized + Bits>(
    artifact: &Artifact,
    config: &TalkerConfig<E::Scalar>,
    layer_count: usize,
) -> (layers: Option<Vec<TalkerLayerQuant<E>>>)
    requires
        config.valid(),
    ensures
        (layers is Some) == (forall|i: int|
            0 <= i < layer_count ==> talker_widths(*config).stored(
                *artifact,
                #[trigger] talker_base(i),
            )),
        layers matches Some(l) ==> {
            &&& l@.len() == layer_count
            &&& forall|i: int|
                0 <= i < layer_count ==> {
                    &&& (#[trigger] l@[i]).fits(*config)
                    &&& exact_route::<E>() ==> talker_widths(*config).holds::<E>(
                        *artifact,
                        talker_base(i),
                        talker_fused(l@[i]),
                    )
                }
        },
{
    let mut layers: Vec<TalkerLayerQuant<E>> = Vec::new();
    for index in 0..layer_count
        invariant
            config.valid(),
            layers@.len() == index,
            forall|i: int|
                0 <= i < index ==> talker_widths(*config).stored(
                    *artifact,
                    #[trigger] talker_base(i),
                ),
            forall|i: int|
                0 <= i < index ==> {
                    &&& (#[trigger] layers@[i]).fits(*config)
                    &&& exact_route::<E>() ==> talker_widths(*config).holds::<E>(
                        *artifact,
                        talker_base(i),
                        talker_fused(layers@[i]),
                    )
                },
    {
        match talker_layer_from_artifact::<E>(artifact, config, index) {
            Some(layer) => {
                layers.push(layer);
            },
            None => {
                return None;
            },
        }
    }
    Some(layers)
}

/// Every microdecoder layer's packed matrices, where the artifact holds them all.
pub fn micro_layers_from_artifact<E: Quantized + Bits>(
    artifact: &Artifact,
    config: &MicrodecoderConfig<E::Scalar>,
    layer_count: usize,
) -> (layers: Option<Vec<MicroLayerQuant<E>>>)
    requires
        config.valid(),
    ensures
        (layers is Some) == (forall|i: int|
            0 <= i < layer_count ==> micro_widths(*config).stored(
                *artifact,
                #[trigger] micro_base(i),
            )),
        layers matches Some(l) ==> {
            &&& l@.len() == layer_count
            &&& forall|i: int|
                0 <= i < layer_count ==> {
                    &&& (#[trigger] l@[i]).fits(*config)
                    &&& exact_route::<E>() ==> micro_widths(*config).holds::<E>(
                        *artifact,
                        micro_base(i),
                        micro_fused(l@[i]),
                    )
                }
        },
{
    let mut layers: Vec<MicroLayerQuant<E>> = Vec::new();
    for index in 0..layer_count
        invariant
            config.valid(),
            layers@.len() == index,
            forall|i: int|
                0 <= i < index ==> micro_widths(*config).stored(
                    *artifact,
                    #[trigger] micro_base(i),
                ),
            forall|i: int|
                0 <= i < index ==> {
                    &&& (#[trigger] layers@[i]).fits(*config)
                    &&& exact_route::<E>() ==> micro_widths(*config).holds::<E>(
                        *artifact,
                        micro_base(i),
                        micro_fused(layers@[i]),
                    )
                },
    {
        match micro_layer_from_artifact::<E>(artifact, config, index) {
            Some(layer) => {
                layers.push(layer);
            },
            None => {
                return None;
            },
        }
    }
    Some(layers)
}

/// The packed projections of the armed stacks. A stack that is not armed has none.
pub struct Int8Route<Q: Quantized> {
    talker: Vec<TalkerLayerQuant<Q>>,
    micro: Vec<MicroLayerQuant<Q>>,
    micro_heads: Vec<QuantizedMatrix<Q>>,
    mode: Q::Mode,
}

/// That a talker layer can be had: from the artifact, or by packing its weights.
pub open spec fn talker_layer_at_hand<'a, S>(
    artifact: Option<&Artifact>,
    config: TalkerConfig<S>,
    weights: TalkerLayerWeights<'a, S>,
    i: int,
) -> bool {
    ||| artifact matches Some(held) && talker_widths(config).stored(*held, talker_base(i))
    ||| weights.projections_fit(config)
}

/// That a microdecoder layer can be had: from the artifact, or by packing its weights.
pub open spec fn micro_layer_at_hand<'a, S>(
    artifact: Option<&Artifact>,
    config: MicrodecoderConfig<S>,
    weights: LayerWeights<'a, S>,
    i: int,
) -> bool {
    ||| artifact matches Some(held) && micro_widths(config).stored(*held, micro_base(i))
    ||| weights.fits(config)
}

/// That a head can be had: from the artifact, or by packing its weights.
pub open spec fn head_at_hand<S>(
    artifact: Option<&Artifact>,
    config: MicrodecoderConfig<S>,
    weights: Seq<S>,
    i: int,
) -> bool {
    ||| artifact matches Some(held) && stored_of(
        *held,
        head_name(i),
        RESIDUAL_VOCAB as int,
        config.hidden_size as int,
    ) is Some
    ||| weights.len() == RESIDUAL_VOCAB * config.hidden_size
}

/// That a packed talker layer comes from the artifact where that holds it, and else from its
/// weights.
pub open spec fn talker_layer_is<'a, E: Quantized + Bits>(
    artifact: Option<&Artifact>,
    config: TalkerConfig<E::Scalar>,
    weights: TalkerLayerWeights<'a, E::Scalar>,
    i: int,
    layer: TalkerLayerQuant<E>,
) -> bool {
    if artifact matches Some(held) && talker_widths(config).stored(*held, talker_base(i)) {
        talker_widths(config).holds::<E>(*artifact->0, talker_base(i), talker_fused(layer))
    } else {
        layer.packs(config, weights)
    }
}

/// That a packed microdecoder layer comes from the artifact where that holds it, and else from
/// its weights.
pub open spec fn micro_layer_is<'a, E: Quantized + Bits>(
    artifact: Option<&Artifact>,
    config: MicrodecoderConfig<E::Scalar>,
    weights: LayerWeights<'a, E::Scalar>,
    i: int,
    layer: MicroLayerQuant<E>,
) -> bool {
    if artifact matches Some(held) && micro_widths(config).stored(*held, micro_base(i)) {
        micro_widths(config).holds::<E>(*artifact->0, micro_base(i), micro_fused(layer))
    } else {
        layer.packs(config, weights)
    }
}

/// That a packed head comes from the artifact where that holds it, and else from its weights.
pub open spec fn head_is<E: Quantized + Bits>(
    artifact: Option<&Artifact>,
    config: MicrodecoderConfig<E::Scalar>,
    weights: Seq<E::Scalar>,
    i: int,
    head: QuantizedMatrix<E>,
) -> bool {
    let (n, k) = (RESIDUAL_VOCAB, config.hidden_size);
    if artifact matches Some(held) && stored_of(*held, head_name(i), n as int, k as int) is Some {
        head.data() == stored_matrix::<E>(*artifact->0, head_name(i), n as int, k as int)
    } else {
        head.data() == quant::packed::<E>(weights, n, k)
    }
}

impl<Q: Quantized> Int8Route<Q> {
    /// The talker's packed layers.
    pub closed spec fn talker_layers(&self) -> Seq<TalkerLayerQuant<Q>> {
        self.talker@
    }

    /// The microdecoder's packed layers.
    pub closed spec fn micro_layers(&self) -> Seq<MicroLayerQuant<Q>> {
        self.micro@
    }

    /// The microdecoder's packed heads.
    pub closed spec fn heads(&self) -> Seq<QuantizedMatrix<Q>> {
        self.micro_heads@
    }

    /// The kernel that runs them.
    pub closed spec fn kernel(&self) -> Q::Mode {
        self.mode
    }

    /// What the microdecoder runs on, where it is armed. Without packed heads every head scores
    /// exactly.
    pub open spec fn packed(&self) -> Option<PackedRoute<Q>> {
        if self.micro_layers().len() == 0 {
            None
        } else {
            Some(
                PackedRoute {
                    layers: self.micro_layers(),
                    heads: if self.heads().len() == 0 {
                        None
                    } else {
                        Some(self.heads())
                    },
                    mode: self.kernel(),
                },
            )
        }
    }

    /// The talker's packed layers, where the talker is armed.
    pub fn talker(&self) -> (layers: &[TalkerLayerQuant<Q>])
        ensures
            layers@ == self.talker_layers(),
    {
        self.talker.as_slice()
    }

    /// The kernel that runs them.
    pub fn mode(&self) -> (mode: Q::Mode)
        ensures
            mode == self.kernel(),
    {
        self.mode
    }
}

/// What the microdecoder runs on, where there is a route and the microdecoder is armed.
pub open spec fn route_of<Q: Quantized>(int8: Option<Int8Route<Q>>) -> Option<PackedRoute<Q>> {
    match int8 {
        Some(route) => route.packed(),
        None => None,
    }
}

/// That every layer of the talker can be had.
pub open spec fn talker_at_hand<'a, S>(
    artifact: Option<&Artifact>,
    config: TalkerConfig<S>,
    weights: TalkerWeights<'a, S>,
) -> bool {
    &&& config.valid()
    &&& forall|i: int|
        #![trigger weights.layers@[i]]
        0 <= i < weights.layers@.len() ==> talker_layer_at_hand(
            artifact,
            config,
            weights.layers@[i],
            i,
        )
}

/// That every layer and every head of the microdecoder can be had.
pub open spec fn micro_at_hand<'a, S>(
    artifact: Option<&Artifact>,
    config: MicrodecoderConfig<S>,
    weights: MicrodecoderWeights<'a, S>,
) -> bool {
    &&& config.valid()
    &&& forall|i: int|
        #![trigger weights.layers@[i]]
        0 <= i < weights.layers@.len() ==> micro_layer_at_hand(
            artifact,
            config,
            weights.layers@[i],
            i,
        )
    &&& forall|i: int|
        #![trigger weights.heads@[i]]
        0 <= i < weights.heads@.len() ==> head_at_hand(artifact, config, weights.heads@[i]@, i)
}

/// That whatever is armed can be packed.
pub open spec fn packable<'a, 'e, M, S>(
    settings: RouteSettings<'e, M>,
    talker_config: TalkerConfig<S>,
    talker_weights: TalkerWeights<'a, S>,
    microdecoder_config: MicrodecoderConfig<S>,
    microdecoder_weights: MicrodecoderWeights<'a, S>,
    artifact: Option<&Artifact>,
) -> bool {
    let read = settings.read(artifact);
    &&& settings.talker() ==> talker_at_hand(read, talker_config, talker_weights)
    &&& settings.micro() ==> micro_at_hand(read, microdecoder_config, microdecoder_weights)
}

/// That a route is the one its settings ask for: the armed stacks are packed, each matrix from the
/// artifact where that is read and holds it, and else from its weights.
pub open spec fn prepared<'a, 'e, E: Quantized + Bits>(
    settings: RouteSettings<'e, E::Mode>,
    talker_config: TalkerConfig<E::Scalar>,
    talker_weights: TalkerWeights<'a, E::Scalar>,
    microdecoder_config: MicrodecoderConfig<E::Scalar>,
    microdecoder_weights: MicrodecoderWeights<'a, E::Scalar>,
    artifact: Option<&Artifact>,
    route: Int8Route<E>,
) -> bool {
    let read = settings.read(artifact);
    &&& route.kernel() == settings.mode
    &&& route.talker_layers().len() == if settings.talker() {
        talker_weights.layers@.len()
    } else {
        0
    }
    &&& route.micro_layers().len() == if settings.micro() {
        microdecoder_weights.layers@.len()
    } else {
        0
    }
    &&& route.heads().len() == if settings.micro() {
        microdecoder_weights.heads@.len()
    } else {
        0
    }
    &&& forall|i: int|
        0 <= i < route.talker_layers().len() ==> {
            &&& (#[trigger] route.talker_layers()[i]).fits(talker_config)
            &&& exact_route::<E>() ==> talker_layer_is::<E>(
                read,
                talker_config,
                talker_weights.layers@[i],
                i,
                route.talker_layers()[i],
            )
        }
    &&& forall|i: int|
        0 <= i < route.micro_layers().len() ==> {
            &&& (#[trigger] route.micro_layers()[i]).fits(microdecoder_config)
            &&& exact_route::<E>() ==> micro_layer_is::<E>(
                read,
                microdecoder_config,
                microdecoder_weights.layers@[i],
                i,
                route.micro_layers()[i],
            )
        }
    &&& forall|i: int|
        0 <= i < route.heads().len() ==> {
            &&& (#[trigger] route.heads()[i]).outputs() == RESIDUAL_VOCAB
            &&& route.heads()[i].inputs() == microdecoder_config.hidden_size
            &&& exact_route::<E>() ==> head_is::<E>(
                read,
                microdecoder_config,
                microdecoder_weights.heads@[i]@,
                i,
                route.heads()[i],
            )
        }
}

/// Whether every layer of the talker can be had.
fn has_talker<'a, E: Quantized + Bits>(
    artifact: Option<&Artifact>,
    config: &TalkerConfig<E::Scalar>,
    weights: &TalkerWeights<'a, E::Scalar>,
) -> (ok: bool)
    ensures
        ok == talker_at_hand(artifact, *config, *weights),
{
    if !config.is_valid() {
        return false;
    }
    for i in 0..weights.layers.len()
        invariant
            config.valid(),
            forall|j: int|
                #![trigger weights.layers@[j]]
                0 <= j < i ==> talker_layer_at_hand(artifact, *config, weights.layers@[j], j),
    {
        let stored = match artifact {
            Some(held) => talker_layer_from_artifact::<E>(held, config, i).is_some(),
            None => false,
        };
        if !stored && !weights.layers[i].has_expected_projections(config) {
            proof {
                assert(!talker_layer_at_hand(
                    artifact,
                    *config,
                    weights.layers@[i as int],
                    i as int,
                ));
            }
            return false;
        }
    }
    true
}

/// Whether every layer and every head of the microdecoder can be had.
fn has_micro<'a, E: Quantized + Bits>(
    artifact: Option<&Artifact>,
    config: &MicrodecoderConfig<E::Scalar>,
    weights: &MicrodecoderWeights<'a, E::Scalar>,
) -> (ok: bool)
    ensures
        ok == micro_at_hand(artifact, *config, *weights),
{
    if !config.is_valid() {
        return false;
    }
    for i in 0..weights.layers.len()
        invariant
            config.valid(),
            forall|j: int|
                #![trigger weights.layers@[j]]
                0 <= j < i ==> micro_layer_at_hand(artifact, *config, weights.layers@[j], j),
    {
        let stored = match artifact {
            Some(held) => micro_layer_from_artifact::<E>(held, config, i).is_some(),
            None => false,
        };
        if !stored && !weights.layers[i].has_expected_shapes(config) {
            proof {
                assert(!micro_layer_at_hand(
                    artifact,
                    *config,
                    weights.layers@[i as int],
                    i as int,
                ));
            }
            return false;
        }
    }
    for i in 0..weights.heads.len()
        invariant
            forall|j: int|
                #![trigger weights.heads@[j]]
                0 <= j < i ==> head_at_hand(artifact, *config, weights.heads@[j]@, j),
    {
        let name = join_number("talker.code_predictor.lm_head.", i, ".weight");
        let stored = match artifact {
            Some(held) => q8_from_artifact::<E>(
                held,
                name.as_str(),
                RESIDUAL_VOCAB,
                config.hidden_size,
            ).is_some(),
            None => false,
        };
        if !stored && !is_product(RESIDUAL_VOCAB, config.hidden_size, weights.heads[i].len()) {
            proof {
                assert(!head_at_hand(artifact, *config, weights.heads@[i as int]@, i as int));
            }
            return false;
        }
    }
    true
}

/// Whether whatever is armed can be packed.
pub fn can_prepare_int8_route<'a, 'e, E: Quantized + Bits>(
    settings: &RouteSettings<'e, E::Mode>,
    talker_config: &TalkerConfig<E::Scalar>,
    talker_weights: &TalkerWeights<'a, E::Scalar>,
    microdecoder_config: &MicrodecoderConfig<E::Scalar>,
    microdecoder_weights: &MicrodecoderWeights<'a, E::Scalar>,
    artifact: Option<&Artifact>,
) -> (ok: bool)
    ensures
        ok == packable(
            *settings,
            *talker_config,
            *talker_weights,
            *microdecoder_config,
            *microdecoder_weights,
            artifact,
        ),
{
    let (talker, micro) = settings.stacks();
    let artifact = settings.source(artifact);
    (!talker || has_talker::<E>(artifact, talker_config, talker_weights)) && (!micro
        || has_micro::<E>(artifact, microdecoder_config, microdecoder_weights))
}

/// Packs the armed stacks, reading from the artifact what it holds.
pub fn prepare_int8_route<'a, 'e, E: Quantized + Bits>(
    settings: &RouteSettings<'e, E::Mode>,
    talker_config: &TalkerConfig<E::Scalar>,
    talker_weights: &TalkerWeights<'a, E::Scalar>,
    microdecoder_config: &MicrodecoderConfig<E::Scalar>,
    microdecoder_weights: &MicrodecoderWeights<'a, E::Scalar>,
    artifact: Option<&Artifact>,
) -> (route: Option<Int8Route<E>>)
    requires
        packable(
            *settings,
            *talker_config,
            *talker_weights,
            *microdecoder_config,
            *microdecoder_weights,
            artifact,
        ),
    ensures
        (route is Some) == settings.armed,
        route matches Some(r) ==> prepared::<E>(
            *settings,
            *talker_config,
            *talker_weights,
            *microdecoder_config,
            *microdecoder_weights,
            artifact,
            r,
        ),
{
    if !settings.armed {
        return None;
    }
    let (arm_talker, arm_micro) = settings.stacks();
    let artifact = settings.source(artifact);
    let talker = if arm_talker {
        pack_talker::<E>(talker_config, talker_weights, artifact)
    } else {
        Vec::new()
    };
    let micro = if arm_micro {
        pack_micro::<E>(microdecoder_config, microdecoder_weights, artifact)
    } else {
        Vec::new()
    };
    let micro_heads = if arm_micro {
        pack_heads::<E>(microdecoder_config, microdecoder_weights, artifact)
    } else {
        Vec::new()
    };
    Some(Int8Route { talker, micro, micro_heads, mode: settings.mode })
}

/// Packs the talker's layers.
fn pack_talker<'a, E: Quantized + Bits>(
    config: &TalkerConfig<E::Scalar>,
    weights: &TalkerWeights<'a, E::Scalar>,
    artifact: Option<&Artifact>,
) -> (layers: Vec<TalkerLayerQuant<E>>)
    requires
        config.valid(),
        forall|i: int|
            #![trigger weights.layers@[i]]
            0 <= i < weights.layers@.len() ==> talker_layer_at_hand(
                artifact,
                *config,
                weights.layers@[i],
                i,
            ),
    ensures
        layers@.len() == weights.layers@.len(),
        forall|i: int|
            0 <= i < layers@.len() ==> {
                &&& (#[trigger] layers@[i]).fits(*config)
                &&& exact_route::<E>() ==> talker_layer_is::<E>(
                    artifact,
                    *config,
                    weights.layers@[i],
                    i,
                    layers@[i],
                )
            },
{
    let mut layers: Vec<TalkerLayerQuant<E>> = Vec::new();
    for i in 0..weights.layers.len()
        invariant
            config.valid(),
            forall|j: int|
                #![trigger weights.layers@[j]]
                0 <= j < weights.layers@.len() ==> talker_layer_at_hand(
                    artifact,
                    *config,
                    weights.layers@[j],
                    j,
                ),
            layers@.len() == i,
            forall|j: int|
                0 <= j < i ==> {
                    &&& (#[trigger] layers@[j]).fits(*config)
                    &&& exact_route::<E>() ==> talker_layer_is::<E>(
                        artifact,
                        *config,
                        weights.layers@[j],
                        j,
                        layers@[j],
                    )
                },
    {
        proof {
            assert(talker_layer_at_hand(artifact, *config, weights.layers@[i as int], i as int));
        }
        let stored = match artifact {
            Some(held) => talker_layer_from_artifact::<E>(held, config, i),
            None => None,
        };
        layers.push(
            match stored {
                Some(layer) => layer,
                None => TalkerLayerQuant::<E>::quantize(config, &weights.layers[i]),
            },
        );
    }
    layers
}

/// Packs the microdecoder's layers.
fn pack_micro<'a, E: Quantized + Bits>(
    config: &MicrodecoderConfig<E::Scalar>,
    weights: &MicrodecoderWeights<'a, E::Scalar>,
    artifact: Option<&Artifact>,
) -> (layers: Vec<MicroLayerQuant<E>>)
    requires
        config.valid(),
        forall|i: int|
            #![trigger weights.layers@[i]]
            0 <= i < weights.layers@.len() ==> micro_layer_at_hand(
                artifact,
                *config,
                weights.layers@[i],
                i,
            ),
    ensures
        layers@.len() == weights.layers@.len(),
        forall|i: int|
            0 <= i < layers@.len() ==> {
                &&& (#[trigger] layers@[i]).fits(*config)
                &&& exact_route::<E>() ==> micro_layer_is::<E>(
                    artifact,
                    *config,
                    weights.layers@[i],
                    i,
                    layers@[i],
                )
            },
{
    let mut layers: Vec<MicroLayerQuant<E>> = Vec::new();
    for i in 0..weights.layers.len()
        invariant
            config.valid(),
            forall|j: int|
                #![trigger weights.layers@[j]]
                0 <= j < weights.layers@.len() ==> micro_layer_at_hand(
                    artifact,
                    *config,
                    weights.layers@[j],
                    j,
                ),
            layers@.len() == i,
            forall|j: int|
                0 <= j < i ==> {
                    &&& (#[trigger] layers@[j]).fits(*config)
                    &&& exact_route::<E>() ==> micro_layer_is::<E>(
                        artifact,
                        *config,
                        weights.layers@[j],
                        j,
                        layers@[j],
                    )
                },
    {
        proof {
            assert(micro_layer_at_hand(artifact, *config, weights.layers@[i as int], i as int));
        }
        let stored = match artifact {
            Some(held) => micro_layer_from_artifact::<E>(held, config, i),
            None => None,
        };
        layers.push(
            match stored {
                Some(layer) => layer,
                None => MicroLayerQuant::<E>::quantize(config, &weights.layers[i]),
            },
        );
    }
    layers
}

/// Packs the microdecoder's heads.
fn pack_heads<'a, E: Quantized + Bits>(
    config: &MicrodecoderConfig<E::Scalar>,
    weights: &MicrodecoderWeights<'a, E::Scalar>,
    artifact: Option<&Artifact>,
) -> (heads: Vec<QuantizedMatrix<E>>)
    requires
        forall|i: int|
            #![trigger weights.heads@[i]]
            0 <= i < weights.heads@.len() ==> head_at_hand(
                artifact,
                *config,
                weights.heads@[i]@,
                i,
            ),
    ensures
        heads@.len() == weights.heads@.len(),
        forall|i: int|
            0 <= i < heads@.len() ==> {
                &&& (#[trigger] heads@[i]).outputs() == RESIDUAL_VOCAB
                &&& heads@[i].inputs() == config.hidden_size
                &&& exact_route::<E>() ==> head_is::<E>(
                    artifact,
                    *config,
                    weights.heads@[i]@,
                    i,
                    heads@[i],
                )
            },
{
    let mut heads: Vec<QuantizedMatrix<E>> = Vec::new();
    for i in 0..weights.heads.len()
        invariant
            forall|j: int|
                #![trigger weights.heads@[j]]
                0 <= j < weights.heads@.len() ==> head_at_hand(
                    artifact,
                    *config,
                    weights.heads@[j]@,
                    j,
                ),
            heads@.len() == i,
            forall|j: int|
                0 <= j < i ==> {
                    &&& (#[trigger] heads@[j]).outputs() == RESIDUAL_VOCAB
                    &&& heads@[j].inputs() == config.hidden_size
                    &&& exact_route::<E>() ==> head_is::<E>(
                        artifact,
                        *config,
                        weights.heads@[j]@,
                        j,
                        heads@[j],
                    )
                },
    {
        proof {
            assert(head_at_hand(artifact, *config, weights.heads@[i as int]@, i as int));
        }
        let name = join_number("talker.code_predictor.lm_head.", i, ".weight");
        let stored = match artifact {
            Some(held) => q8_from_artifact::<E>(
                held,
                name.as_str(),
                RESIDUAL_VOCAB,
                config.hidden_size,
            ),
            None => None,
        };
        heads.push(
            match stored {
                Some(head) => head,
                None => QuantizedMatrix::<E>::quantize(
                    weights.heads[i],
                    RESIDUAL_VOCAB,
                    config.hidden_size,
                ),
            },
        );
    }
    heads
}

impl<Q: Quantized> Int8Route<Q> {
    /// The microdecoder's route, where the microdecoder is armed. Without packed heads every head
    /// scores exactly.
    pub fn micro_route<'a>(&'a self) -> (route: Option<MicroQuantRoute<'a, Q>>)
        ensures
            match route {
                Some(route) => self.packed() == Some(route@),
                None => self.packed() is None,
            },
    {
        if self.micro.len() == 0 {
            return None;
        }
        let heads = if self.micro_heads.len() == 0 {
            None
        } else {
            Some(self.micro_heads.as_slice())
        };
        Some(MicroQuantRoute { layers: self.micro.as_slice(), heads, mode: self.mode })
    }
}

} // verus!
