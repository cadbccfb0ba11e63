//! Under which name each weight is read.
//!
//! A checkpoint is a bag of named tensors, many of them of one shape. These laws say which name stands
//! behind each weight that a checkpoint lends.
use vstd::prelude::*;
use crate::arith;
use crate::arith::Arithmetic;
use crate::checkpoint::decoder;
use crate::checkpoint::decoder::{CodecCheckpoint, Requests};
use crate::checkpoint::decoder_plan;
use crate::checkpoint::embedding::TextEmbeddingTable;
use crate::checkpoint::plan;
use crate::checkpoint::store::TensorStore;
use crate::checkpoint::talker::{Origin, TalkerCheckpoint};
use crate::checkpoint::CheckpointError;
use crate::codec::decoder::CodecDecoderWeights;
use crate::codec::quantizer::SplitResidualVectorQuantizer;
use crate::microdecoder::layer::LayerWeights;
use crate::prompt::PromptHeader;
use crate::rows;
use crate::speaker;
use crate::speaker::encoder::Encoder;
use crate::speech_encoder;
use crate::speech_encoder::SpeechEncoder;
use crate::storage;
use crate::storage::Bits;
use crate::talker::{TalkerLayerWeights, TextProjection};
use crate::tensor_file;
use crate::tensor_file::TensorFile;
use crate::text::decimal_of;

verus! {

/// That a file holds `values` under a name.
pub open spec fn read_as<A: Arithmetic>(
    file: TensorFile<A::Scalar>,
    name: Seq<char>,
    values: Seq<A::Scalar>,
) -> bool {
    tensor_file::widened::<A>(file, name) == Ok::<Seq<A::Scalar>, storage::Fault>(values)
}

/// A tensor of a checkpoint that was read from a file is what the file holds under its name.
proof fn lemma_read_as<B: Bits>(
    held: TalkerCheckpoint<B>,
    file: TensorFile<B::Scalar>,
    i: int,
)
    requires
        held.exact(),
        held.source().origin == Origin::File(file),
        0 <= i < 401,
    ensures
        read_as::<B>(file, plan::name_of(i), held.tensor(i)),
{
    assert(held.source().tensor::<B>(i) == Ok::<Seq<B::Scalar>, storage::Fault>(held.tensor(i)));
}

/// Each weight of a talker layer is what the file holds under the layer's number and the weight's
/// name.
pub proof fn law_talker_layers_are_read_by_name<'a, B: Bits>(
    held: &'a TalkerCheckpoint<B>,
    file: TensorFile<B::Scalar>,
    layers: Vec<TalkerLayerWeights<'a, B::Scalar>>,
    l: int,
)
    requires
        held.wf(),
        held.exact(),
        held.source().origin == Origin::File(file),
        call_ensures(TalkerCheckpoint::<B>::talker_layer_weights, (held,), layers),
        0 <= l < 28,
    ensures
        layers@.len() == 28,
        ({
            let at = "talker.model.layers."@ + decimal_of(l as nat);
            let layer = layers@[l];
            &&& read_as::<B>(file, at + ".input_layernorm.weight"@, layer.input_layernorm@)
            &&& read_as::<B>(file, at + ".self_attn.q_proj.weight"@, layer.q_proj@)
            &&& read_as::<B>(file, at + ".self_attn.k_proj.weight"@, layer.k_proj@)
            &&& read_as::<B>(file, at + ".self_attn.v_proj.weight"@, layer.v_proj@)
            &&& read_as::<B>(file, at + ".self_attn.q_norm.weight"@, layer.q_norm@)
            &&& read_as::<B>(file, at + ".self_attn.k_norm.weight"@, layer.k_norm@)
            &&& read_as::<B>(file, at + ".self_attn.o_proj.weight"@, layer.o_proj@)
            &&& read_as::<B>(
                file,
                at + ".post_attention_layernorm.weight"@,
                layer.post_attention_layernorm@,
            )
            &&& read_as::<B>(file, at + ".mlp.gate_proj.weight"@, layer.gate_proj@)
            &&& read_as::<B>(file, at + ".mlp.up_proj.weight"@, layer.up_proj@)
            &&& read_as::<B>(file, at + ".mlp.down_proj.weight"@, layer.down_proj@)
        }),
{
    let layer = layers@[l];
    lemma_read_as::<B>(*held, file, 11 * l);
    lemma_read_as::<B>(*held, file, 11 * l + 1);
    lemma_read_as::<B>(*held, file, 11 * l + 2);
    lemma_read_as::<B>(*held, file, 11 * l + 3);
    lemma_read_as::<B>(*held, file, 11 * l + 4);
    lemma_read_as::<B>(*held, file, 11 * l + 5);
    lemma_read_as::<B>(*held, file, 11 * l + 6);
    lemma_read_as::<B>(*held, file, 11 * l + 7);
    lemma_read_as::<B>(*held, file, 11 * l + 8);
    lemma_read_as::<B>(*held, file, 11 * l + 9);
    lemma_read_as::<B>(*held, file, 11 * l + 10);
    assert((11 * l + 0) / 11 == l && (11 * l + 0) % 11 == 0);
    assert((11 * l + 1) / 11 == l && (11 * l + 1) % 11 == 1);
    assert((11 * l + 2) / 11 == l && (11 * l + 2) % 11 == 2);
    assert((11 * l + 3) / 11 == l && (11 * l + 3) % 11 == 3);
    assert((11 * l + 4) / 11 == l && (11 * l + 4) % 11 == 4);
    assert((11 * l + 5) / 11 == l && (11 * l + 5) % 11 == 5);
    assert((11 * l + 6) / 11 == l && (11 * l + 6) % 11 == 6);
    assert((11 * l + 7) / 11 == l && (11 * l + 7) % 11 == 7);
    assert((11 * l + 8) / 11 == l && (11 * l + 8) % 11 == 8);
    assert((11 * l + 9) / 11 == l && (11 * l + 9) % 11 == 9);
    assert((11 * l + 10) / 11 == l && (11 * l + 10) % 11 == 10);
}

/// Each weight of a microdecoder layer is what the file holds under the layer's number and the weight's
/// name.
pub proof fn law_microdecoder_layers_are_read_by_name<'a, B: Bits>(
    held: &'a TalkerCheckpoint<B>,
    file: TensorFile<B::Scalar>,
    layers: Vec<LayerWeights<'a, B::Scalar>>,
    l: int,
)
    requires
        held.wf(),
        held.exact(),
        held.source().origin == Origin::File(file),
        call_ensures(TalkerCheckpoint::<B>::microdecoder_layer_weights, (held,), layers),
        0 <= l < 5,
    ensures
        layers@.len() == 5,
        ({
            let at = "talker.code_predictor.model.layers."@ + decimal_of(l as nat);
            let layer = layers@[l];
            &&& read_as::<B>(file, at + ".input_layernorm.weight"@, layer.input_norm@)
            &&& read_as::<B>(file, at + ".self_attn.q_proj.weight"@, layer.q_proj@)
            &&& read_as::<B>(file, at + ".self_attn.k_proj.weight"@, layer.k_proj@)
            &&& read_as::<B>(file, at + ".self_attn.v_proj.weight"@, layer.v_proj@)
            &&& read_as::<B>(file, at + ".self_attn.q_norm.weight"@, layer.q_norm@)
            &&& read_as::<B>(file, at + ".self_attn.k_norm.weight"@, layer.k_norm@)
            &&& read_as::<B>(file, at + ".self_attn.o_proj.weight"@, layer.o_proj@)
            &&& read_as::<B>(
                file,
                at + ".post_attention_layernorm.weight"@,
                layer.post_attention_norm@,
            )
            &&& read_as::<B>(file, at + ".mlp.gate_proj.weight"@, layer.gate_proj@)
            &&& read_as::<B>(file, at + ".mlp.up_proj.weight"@, layer.up_proj@)
            &&& read_as::<B>(file, at + ".mlp.down_proj.weight"@, layer.down_proj@)
        }),
{
    let layer = layers@[l];
    lemma_read_as::<B>(*held, file, 308 + 11 * l);
    lemma_read_as::<B>(*held, file, 308 + 11 * l + 1);
    lemma_read_as::<B>(*held, file, 308 + 11 * l + 2);
    lemma_read_as::<B>(*held, file, 308 + 11 * l + 3);
    lemma_read_as::<B>(*held, file, 308 + 11 * l + 4);
    lemma_read_as::<B>(*held, file, 308 + 11 * l + 5);
    lemma_read_as::<B>(*held, file, 308 + 11 * l + 6);
    lemma_read_as::<B>(*held, file, 308 + 11 * l + 7);
    lemma_read_as::<B>(*held, file, 308 + 11 * l + 8);
    lemma_read_as::<B>(*held, file, 308 + 11 * l + 9);
    lemma_read_as::<B>(*held, file, 308 + 11 * l + 10);
    assert((11 * l + 0) / 11 == l && (11 * l + 0) % 11 == 0);
    assert((11 * l + 1) / 11 == l && (11 * l + 1) % 11 == 1);
    assert((11 * l + 2) / 11 == l && (11 * l + 2) % 11 == 2);
    assert((11 * l + 3) / 11 == l && (11 * l + 3) % 11 == 3);
    assert((11 * l + 4) / 11 == l && (11 * l + 4) % 11 == 4);
    assert((11 * l + 5) / 11 == l && (11 * l + 5) % 11 == 5);
    assert((11 * l + 6) / 11 == l && (11 * l + 6) % 11 == 6);
    assert((11 * l + 7) / 11 == l && (11 * l + 7) % 11 == 7);
    assert((11 * l + 8) / 11 == l && (11 * l + 8) % 11 == 8);
    assert((11 * l + 9) / 11 == l && (11 * l + 9) % 11 == 9);
    assert((11 * l + 10) / 11 == l && (11 * l + 10) % 11 == 10);
}

/// Residual tables and heads are read by their depth, and every single tensor by its own name.
pub proof fn law_tables_heads_and_projections_are_read_by_name<'a, B: Bits>(
    held: &'a TalkerCheckpoint<B>,
    file: TensorFile<B::Scalar>,
    tables: Vec<&'a [B::Scalar]>,
    heads: Vec<&'a [B::Scalar]>,
    projection: TextProjection<'a, B::Scalar>,
    depth: int,
)
    requires
        held.wf(),
        held.exact(),
        held.source().origin == Origin::File(file),
        call_ensures(TalkerCheckpoint::<B>::residual_embedding_slices, (held,), tables),
        call_ensures(TalkerCheckpoint::<B>::microdecoder_head_slices, (held,), heads),
        call_ensures(TalkerCheckpoint::<B>::text_projection, (held,), projection),
        0 <= depth < 15,
    ensures
        tables@.len() == 15,
        heads@.len() == 15,
        read_as::<B>(
            file,
            "talker.code_predictor.model.codec_embedding."@ + decimal_of(depth as nat)
                + ".weight"@,
            tables@[depth]@,
        ),
        read_as::<B>(
            file,
            "talker.code_predictor.lm_head."@ + decimal_of(depth as nat) + ".weight"@,
            heads@[depth]@,
        ),
        read_as::<B>(file, "talker.text_projection.linear_fc1.weight"@, projection.fc1_weight@),
        read_as::<B>(file, "talker.text_projection.linear_fc1.bias"@, projection.fc1_bias@),
        read_as::<B>(file, "talker.text_projection.linear_fc2.weight"@, projection.fc2_weight@),
        read_as::<B>(file, "talker.text_projection.linear_fc2.bias"@, projection.fc2_bias@),
{
    lemma_read_as::<B>(*held, file, 363 + depth);
    lemma_read_as::<B>(*held, file, 378 + depth);
    lemma_read_as::<B>(*held, file, 397);
    lemma_read_as::<B>(*held, file, 398);
    lemma_read_as::<B>(*held, file, 399);
    lemma_read_as::<B>(*held, file, 400);
    assert(tables@[depth]@ == held.tensor(363 + depth));
    assert(heads@[depth]@ == held.tensor(378 + depth));
}

/// The header of a prompt on a speaker vector, in its order: three role tokens; then, at the talker's
/// input, the beginning of thought, its opening, the language, its end, the speaker, padding and the
/// beginning of codes; and the text tokens that pad and begin. Codes look up the talker's own table.
pub proof fn law_the_header_is_in_order<B: Bits>(
    held: &TalkerCheckpoint<B>,
    file: TensorFile<B::Scalar>,
    table: &TextEmbeddingTable<B>,
    voice: &[B::Scalar],
    language: usize,
    header: PromptHeader<B::Scalar>,
    codec: Seq<B::Scalar>,
)
    requires
        arith::pure::<B>(),
        held.wf(),
        held.exact(),
        held.source().origin == Origin::File(file),
        read_as::<B>(file, "talker.model.codec_embedding.weight"@, codec),
        call_requires(TalkerCheckpoint::<B>::xvector_header, (held, table, voice, language)),
        call_ensures(
            TalkerCheckpoint::<B>::xvector_header,
            (held, table, voice, language),
            Ok::<PromptHeader<B::Scalar>, CheckpointError>(header),
        ),
    ensures
        voice@.len() == 1_024,
        header.role@.len() == 3,
        header.role@[0]@ == held.text_state(*table, 151_644),
        header.role@[1]@ == held.text_state(*table, 77_091),
        header.role@[2]@ == held.text_state(*table, 198),
        header.codec_prefill@.len() == 7,
        header.codec_prefill@[0]@ == rows::row(codec, 2_154, 1_024),
        header.codec_prefill@[1]@ == rows::row(codec, 2_156, 1_024),
        header.codec_prefill@[2]@ == rows::row(codec, language as int, 1_024),
        header.codec_prefill@[3]@ == rows::row(codec, 2_157, 1_024),
        header.codec_prefill@[4]@ == voice@,
        header.codec_prefill@[5]@ == rows::row(codec, 2_148, 1_024),
        header.codec_prefill@[6]@ == rows::row(codec, 2_149, 1_024),
        header.tts_pad@ == held.text_state(*table, 151_671),
        header.tts_bos@ == held.text_state(*table, 151_672),
{
    lemma_read_as::<B>(*held, file, 395);
    let prefill = rows::deep(header.codec_prefill@);
    assert(prefill.len() == 7);
    assert(prefill[0] == header.codec_prefill@[0]@);
    assert(prefill[1] == header.codec_prefill@[1]@);
    assert(prefill[2] == header.codec_prefill@[2]@);
    assert(prefill[3] == header.codec_prefill@[3]@);
    assert(prefill[4] == header.codec_prefill@[4]@);
    assert(prefill[5] == header.codec_prefill@[5]@);
    assert(prefill[6] == header.codec_prefill@[6]@);
    assert(header.role@[0]@ == held.text_state(*table, 151_644));
    assert(header.role@[1]@ == held.text_state(*table, 77_091));
    assert(header.role@[2]@ == held.text_state(*table, 198));
}

/// That a request for a name was answered with `values`.
pub open spec fn answered_as<T: TensorStore<S>, S>(
    requests: Requests<T, S>,
    label: Seq<char>,
    name: Seq<char>,
    values: Seq<S>,
) -> bool {
    exists|i: int|
        {
            &&& 0 <= i < requests.replies.len()
            &&& #[trigger] requests.asks(i, label)
            &&& decoder::request_of(i) == name
            &&& requests.replies[i] == Ok::<Seq<S>, CheckpointError>(values)
        }
}

/// A tensor of the decoder is the answer to the request for its name.
proof fn lemma_answered_as<T: TensorStore<B::Scalar>, B: Bits>(
    requests: Requests<T, B::Scalar>,
    from: T,
    to: T,
    label: Seq<char>,
    held: CodecCheckpoint<B>,
    i: int,
)
    requires
        requests.follows(from, to, label),
        requests.yields::<B>(Ok::<CodecCheckpoint<B>, CheckpointError>(held)),
        0 <= i < 237,
    ensures
        answered_as(requests, label, decoder_plan::codec_name(i), held.tensor(i)),
{
    assert(requests.asks(32 + i, label));
    assert(requests.replies[32 + i] is Ok);
    assert(held.tensor(i) == requests.answer(32 + i));
    assert(decoder::request_of(32 + i) == decoder_plan::codec_name(i));
}

/// Each weight of a layer of the codec's transformer is the answer to the request for its name.
pub proof fn law_codec_layers_are_read_by_name<'a, T: TensorStore<B::Scalar>, B: Bits>(
    requests: Requests<T, B::Scalar>,
    from: T,
    to: T,
    label: Seq<char>,
    held: CodecCheckpoint<B>,
    w: CodecDecoderWeights<'a, B::Scalar>,
    l: int,
)
    requires
        requests.follows(from, to, label),
        requests.yields::<B>(Ok::<CodecCheckpoint<B>, CheckpointError>(held)),
        held.lends(w),
        0 <= l < 8,
    ensures
        ({
            let at = "decoder.pre_transformer.layers."@ + decimal_of(l as nat);
            let layer = w.pre_transformer.layers@[l];
            &&& answered_as(
                requests,
                label,
                at + ".input_layernorm.weight"@,
                layer.input_layernorm@,
            )
            &&& answered_as(requests, label, at + ".self_attn.q_proj.weight"@, layer.q_proj@)
            &&& answered_as(requests, label, at + ".self_attn.k_proj.weight"@, layer.k_proj@)
            &&& answered_as(requests, label, at + ".self_attn.v_proj.weight"@, layer.v_proj@)
            &&& answered_as(requests, label, at + ".self_attn.o_proj.weight"@, layer.o_proj@)
            &&& answered_as(
                requests,
                label,
                at + ".self_attn_layer_scale.scale"@,
                layer.self_attn_layer_scale@,
            )
            &&& answered_as(
                requests,
                label,
                at + ".post_attention_layernorm.weight"@,
                layer.post_attention_layernorm@,
            )
            &&& answered_as(requests, label, at + ".mlp.gate_proj.weight"@, layer.gate_proj@)
            &&& answered_as(requests, label, at + ".mlp.up_proj.weight"@, layer.up_proj@)
            &&& answered_as(requests, label, at + ".mlp.down_proj.weight"@, layer.down_proj@)
            &&& answered_as(requests, label, at + ".mlp_layer_scale.scale"@, layer.mlp_layer_scale@)
        }),
{
    assert(held.lends_layer(w.pre_transformer.layers@[l], l));
    assert((11 * l + 0) / 11 == l && (11 * l + 0) % 11 == 0);
    assert((11 * l + 1) / 11 == l && (11 * l + 1) % 11 == 1);
    assert((11 * l + 2) / 11 == l && (11 * l + 2) % 11 == 2);
    assert((11 * l + 3) / 11 == l && (11 * l + 3) % 11 == 3);
    assert((11 * l + 4) / 11 == l && (11 * l + 4) % 11 == 4);
    assert((11 * l + 5) / 11 == l && (11 * l + 5) % 11 == 5);
    assert((11 * l + 6) / 11 == l && (11 * l + 6) % 11 == 6);
    assert((11 * l + 7) / 11 == l && (11 * l + 7) % 11 == 7);
    assert((11 * l + 8) / 11 == l && (11 * l + 8) % 11 == 8);
    assert((11 * l + 9) / 11 == l && (11 * l + 9) % 11 == 9);
    assert((11 * l + 10) / 11 == l && (11 * l + 10) % 11 == 10);
    lemma_answered_as::<T, B>(requests, from, to, label, held, 6 + 11 * l + 0);
    lemma_answered_as::<T, B>(requests, from, to, label, held, 6 + 11 * l + 1);
    lemma_answered_as::<T, B>(requests, from, to, label, held, 6 + 11 * l + 2);
    lemma_answered_as::<T, B>(requests, from, to, label, held, 6 + 11 * l + 3);
    lemma_answered_as::<T, B>(requests, from, to, label, held, 6 + 11 * l + 4);
    lemma_answered_as::<T, B>(requests, from, to, label, held, 6 + 11 * l + 5);
    lemma_answered_as::<T, B>(requests, from, to, label, held, 6 + 11 * l + 6);
    lemma_answered_as::<T, B>(requests, from, to, label, held, 6 + 11 * l + 7);
    lemma_answered_as::<T, B>(requests, from, to, label, held, 6 + 11 * l + 8);
    lemma_answered_as::<T, B>(requests, from, to, label, held, 6 + 11 * l + 9);
    lemma_answered_as::<T, B>(requests, from, to, label, held, 6 + 11 * l + 10);
}

/// Each weight of a latent stage is the answer to the request for its name.
pub proof fn law_codec_stages_are_read_by_name<'a, T: TensorStore<B::Scalar>, B: Bits>(
    requests: Requests<T, B::Scalar>,
    from: T,
    to: T,
    label: Seq<char>,
    held: CodecCheckpoint<B>,
    w: CodecDecoderWeights<'a, B::Scalar>,
    s: int,
)
    requires
        requests.follows(from, to, label),
        requests.yields::<B>(Ok::<CodecCheckpoint<B>, CheckpointError>(held)),
        held.lends(w),
        0 <= s < 2,
    ensures
        ({
            let at = "decoder.upsample."@ + decimal_of(s as nat);
            let stage = w.latent_upsample@[s];
            &&& answered_as(requests, label, at + ".0.conv.weight"@, stage.transposed.weight@)
            &&& answered_as(requests, label, at + ".0.conv.bias"@, stage.transposed.bias@)
            &&& answered_as(
                requests,
                label,
                at + ".1.dwconv.conv.weight"@,
                stage.convnext.depthwise_weight@,
            )
            &&& answered_as(
                requests,
                label,
                at + ".1.dwconv.conv.bias"@,
                stage.convnext.depthwise_bias@,
            )
            &&& answered_as(requests, label, at + ".1.norm.weight"@, stage.convnext.norm_weight@)
            &&& answered_as(requests, label, at + ".1.norm.bias"@, stage.convnext.norm_bias@)
            &&& answered_as(requests, label, at + ".1.pwconv1.weight"@, stage.convnext.pwconv1@)
            &&& answered_as(requests, label, at + ".1.pwconv1.bias"@, stage.convnext.pwconv1_bias@)
            &&& answered_as(requests, label, at + ".1.pwconv2.weight"@, stage.convnext.pwconv2@)
            &&& answered_as(requests, label, at + ".1.pwconv2.bias"@, stage.convnext.pwconv2_bias@)
            &&& answered_as(requests, label, at + ".1.gamma"@, stage.convnext.gamma@)
        }),
{
    assert(held.lends_stage(w.latent_upsample@[s], s));
    assert((11 * s + 0) / 11 == s && (11 * s + 0) % 11 == 0);
    assert((11 * s + 1) / 11 == s && (11 * s + 1) % 11 == 1);
    assert((11 * s + 2) / 11 == s && (11 * s + 2) % 11 == 2);
    assert((11 * s + 3) / 11 == s && (11 * s + 3) % 11 == 3);
    assert((11 * s + 4) / 11 == s && (11 * s + 4) % 11 == 4);
    assert((11 * s + 5) / 11 == s && (11 * s + 5) % 11 == 5);
    assert((11 * s + 6) / 11 == s && (11 * s + 6) % 11 == 6);
    assert((11 * s + 7) / 11 == s && (11 * s + 7) % 11 == 7);
    assert((11 * s + 8) / 11 == s && (11 * s + 8) % 11 == 8);
    assert((11 * s + 9) / 11 == s && (11 * s + 9) % 11 == 9);
    assert((11 * s + 10) / 11 == s && (11 * s + 10) % 11 == 10);
    lemma_answered_as::<T, B>(requests, from, to, label, held, 97 + 11 * s + 0);
    lemma_answered_as::<T, B>(requests, from, to, label, held, 97 + 11 * s + 1);
    lemma_answered_as::<T, B>(requests, from, to, label, held, 97 + 11 * s + 2);
    lemma_answered_as::<T, B>(requests, from, to, label, held, 97 + 11 * s + 3);
    lemma_answered_as::<T, B>(requests, from, to, label, held, 97 + 11 * s + 4);
    lemma_answered_as::<T, B>(requests, from, to, label, held, 97 + 11 * s + 5);
    lemma_answered_as::<T, B>(requests, from, to, label, held, 97 + 11 * s + 6);
    lemma_answered_as::<T, B>(requests, from, to, label, held, 97 + 11 * s + 7);
    lemma_answered_as::<T, B>(requests, from, to, label, held, 97 + 11 * s + 8);
    lemma_answered_as::<T, B>(requests, from, to, label, held, 97 + 11 * s + 9);
    lemma_answered_as::<T, B>(requests, from, to, label, held, 97 + 11 * s + 10);
}

/// Each weight of a waveform block before its units is the answer to the request for its name.
pub proof fn law_codec_blocks_are_read_by_name<'a, T: TensorStore<B::Scalar>, B: Bits>(
    requests: Requests<T, B::Scalar>,
    from: T,
    to: T,
    label: Seq<char>,
    held: CodecCheckpoint<B>,
    w: CodecDecoderWeights<'a, B::Scalar>,
    b: int,
)
    requires
        requests.follows(from, to, label),
        requests.yields::<B>(Ok::<CodecCheckpoint<B>, CheckpointError>(held)),
        held.lends(w),
        0 <= b < 4,
    ensures
        ({
            let at = "decoder.decoder."@ + decimal_of((b + 1) as nat);
            let block = w.decoder_blocks@[b];
            &&& answered_as(requests, label, at + ".block.0.alpha"@, block.alpha_log@)
            &&& answered_as(requests, label, at + ".block.0.beta"@, block.beta_log@)
            &&& answered_as(requests, label, at + ".block.1.conv.weight"@, block.transposed.weight@)
            &&& answered_as(requests, label, at + ".block.1.conv.bias"@, block.transposed.bias@)
        }),
{
    assert(held.lends_block(w.decoder_blocks@[b], b));
    assert((28 * b + 0) / 28 == b && (28 * b + 0) % 28 == 0);
    assert((28 * b + 1) / 28 == b && (28 * b + 1) % 28 == 1);
    assert((28 * b + 2) / 28 == b && (28 * b + 2) % 28 == 2);
    assert((28 * b + 3) / 28 == b && (28 * b + 3) % 28 == 3);
    lemma_answered_as::<T, B>(requests, from, to, label, held, 121 + 28 * b + 0);
    lemma_answered_as::<T, B>(requests, from, to, label, held, 121 + 28 * b + 1);
    lemma_answered_as::<T, B>(requests, from, to, label, held, 121 + 28 * b + 2);
    lemma_answered_as::<T, B>(requests, from, to, label, held, 121 + 28 * b + 3);
}

/// Each weight of a residual unit is the answer to the request for its name, and the units of a block
/// look one, three and nine frames back.
pub proof fn law_codec_units_are_read_by_name<'a, T: TensorStore<B::Scalar>, B: Bits>(
    requests: Requests<T, B::Scalar>,
    from: T,
    to: T,
    label: Seq<char>,
    held: CodecCheckpoint<B>,
    w: CodecDecoderWeights<'a, B::Scalar>,
    b: int,
    u: int,
)
    requires
        requests.follows(from, to, label),
        requests.yields::<B>(Ok::<CodecCheckpoint<B>, CheckpointError>(held)),
        held.lends(w),
        0 <= b < 4,
        0 <= u < 3,
    ensures
        ({
            let at = "decoder.decoder."@ + decimal_of((b + 1) as nat) + ".block."@ + decimal_of(
                (u + 2) as nat,
            );
            let unit = w.decoder_blocks@[b].residual_units@[u];
            &&& unit.first_conv.kernel == 7
            &&& unit.first_conv.dilation == if u == 0 {
                1int
            } else if u == 1 {
                3
            } else {
                9
            }
            &&& unit.second_conv.kernel == 1
            &&& answered_as(requests, label, at + ".act1.alpha"@, unit.first_alpha_log@)
            &&& answered_as(requests, label, at + ".act1.beta"@, unit.first_beta_log@)
            &&& answered_as(requests, label, at + ".conv1.conv.weight"@, unit.first_conv.weight@)
            &&& answered_as(requests, label, at + ".conv1.conv.bias"@, unit.first_conv.bias@)
            &&& answered_as(requests, label, at + ".act2.alpha"@, unit.second_alpha_log@)
            &&& answered_as(requests, label, at + ".act2.beta"@, unit.second_beta_log@)
            &&& answered_as(requests, label, at + ".conv2.conv.weight"@, unit.second_conv.weight@)
            &&& answered_as(requests, label, at + ".conv2.conv.bias"@, unit.second_conv.bias@)
        }),
{
    assert(held.lends_block(w.decoder_blocks@[b], b));
    assert((28 * b + 4 + 8 * u + 0) / 28 == b && (28 * b + 4 + 8 * u + 0) % 28 == 4 + 8 * u + 0);
    assert((28 * b + 4 + 8 * u + 1) / 28 == b && (28 * b + 4 + 8 * u + 1) % 28 == 4 + 8 * u + 1);
    assert((28 * b + 4 + 8 * u + 2) / 28 == b && (28 * b + 4 + 8 * u + 2) % 28 == 4 + 8 * u + 2);
    assert((28 * b + 4 + 8 * u + 3) / 28 == b && (28 * b + 4 + 8 * u + 3) % 28 == 4 + 8 * u + 3);
    assert((28 * b + 4 + 8 * u + 4) / 28 == b && (28 * b + 4 + 8 * u + 4) % 28 == 4 + 8 * u + 4);
    assert((28 * b + 4 + 8 * u + 5) / 28 == b && (28 * b + 4 + 8 * u + 5) % 28 == 4 + 8 * u + 5);
    assert((28 * b + 4 + 8 * u + 6) / 28 == b && (28 * b + 4 + 8 * u + 6) % 28 == 4 + 8 * u + 6);
    assert((28 * b + 4 + 8 * u + 7) / 28 == b && (28 * b + 4 + 8 * u + 7) % 28 == 4 + 8 * u + 7);
    assert((8 * u + 0) / 8 == u && (8 * u + 0) % 8 == 0);
    assert((8 * u + 1) / 8 == u && (8 * u + 1) % 8 == 1);
    assert((8 * u + 2) / 8 == u && (8 * u + 2) % 8 == 2);
    assert((8 * u + 3) / 8 == u && (8 * u + 3) % 8 == 3);
    assert((8 * u + 4) / 8 == u && (8 * u + 4) % 8 == 4);
    assert((8 * u + 5) / 8 == u && (8 * u + 5) % 8 == 5);
    assert((8 * u + 6) / 8 == u && (8 * u + 6) % 8 == 6);
    assert((8 * u + 7) / 8 == u && (8 * u + 7) % 8 == 7);
    lemma_answered_as::<T, B>(requests, from, to, label, held, 121 + 28 * b + 4 + 8 * u + 0);
    lemma_answered_as::<T, B>(requests, from, to, label, held, 121 + 28 * b + 4 + 8 * u + 1);
    lemma_answered_as::<T, B>(requests, from, to, label, held, 121 + 28 * b + 4 + 8 * u + 2);
    lemma_answered_as::<T, B>(requests, from, to, label, held, 121 + 28 * b + 4 + 8 * u + 3);
    lemma_answered_as::<T, B>(requests, from, to, label, held, 121 + 28 * b + 4 + 8 * u + 4);
    lemma_answered_as::<T, B>(requests, from, to, label, held, 121 + 28 * b + 4 + 8 * u + 5);
    lemma_answered_as::<T, B>(requests, from, to, label, held, 121 + 28 * b + 4 + 8 * u + 6);
    lemma_answered_as::<T, B>(requests, from, to, label, held, 121 + 28 * b + 4 + 8 * u + 7);
}

/// Every weight that stands once in the decoder is the answer to the request for its name.
pub proof fn law_single_codec_tensors_are_read_by_name<'a, T: TensorStore<B::Scalar>, B: Bits>(
    requests: Requests<T, B::Scalar>,
    from: T,
    to: T,
    label: Seq<char>,
    held: CodecCheckpoint<B>,
    w: CodecDecoderWeights<'a, B::Scalar>,
)
    requires
        requests.follows(from, to, label),
        requests.yields::<B>(Ok::<CodecCheckpoint<B>, CheckpointError>(held)),
        held.lends(w),
    ensures
        ({

            &&& answered_as(requests, label, "decoder.pre_conv.conv.weight"@, w.pre_conv.weight@)
            &&& answered_as(requests, label, "decoder.pre_conv.conv.bias"@, w.pre_conv.bias@)
            &&& answered_as(
                requests,
                label,
                "decoder.pre_transformer.input_proj.weight"@,
                w.pre_transformer.input_proj@,
            )
            &&& answered_as(
                requests,
                label,
                "decoder.pre_transformer.input_proj.bias"@,
                w.pre_transformer.input_proj_bias@,
            )
            &&& answered_as(
                requests,
                label,
                "decoder.pre_transformer.norm.weight"@,
                w.pre_transformer.final_norm@,
            )
            &&& answered_as(
                requests,
                label,
                "decoder.pre_transformer.output_proj.weight"@,
                w.pre_transformer.output_proj@,
            )
            &&& answered_as(
                requests,
                label,
                "decoder.pre_transformer.output_proj.bias"@,
                w.pre_transformer.output_proj_bias@,
            )
            &&& answered_as(
                requests,
                label,
                "decoder.decoder.0.conv.weight"@,
                w.decoder_input.weight@,
            )
            &&& answered_as(requests, label, "decoder.decoder.0.conv.bias"@, w.decoder_input.bias@)
            &&& answered_as(requests, label, "decoder.decoder.5.alpha"@, w.final_alpha_log@)
            &&& answered_as(requests, label, "decoder.decoder.5.beta"@, w.final_beta_log@)
            &&& answered_as(requests, label, "decoder.decoder.6.conv.weight"@, w.final_conv.weight@)
            &&& answered_as(requests, label, "decoder.decoder.6.conv.bias"@, w.final_conv.bias@)
        }),
{
    lemma_answered_as::<T, B>(requests, from, to, label, held, 2);
    lemma_answered_as::<T, B>(requests, from, to, label, held, 3);
    lemma_answered_as::<T, B>(requests, from, to, label, held, 4);
    lemma_answered_as::<T, B>(requests, from, to, label, held, 5);
    lemma_answered_as::<T, B>(requests, from, to, label, held, 94);
    lemma_answered_as::<T, B>(requests, from, to, label, held, 95);
    lemma_answered_as::<T, B>(requests, from, to, label, held, 96);
    lemma_answered_as::<T, B>(requests, from, to, label, held, 119);
    lemma_answered_as::<T, B>(requests, from, to, label, held, 120);
    lemma_answered_as::<T, B>(requests, from, to, label, held, 233);
    lemma_answered_as::<T, B>(requests, from, to, label, held, 234);
    lemma_answered_as::<T, B>(requests, from, to, label, held, 235);
    lemma_answered_as::<T, B>(requests, from, to, label, held, 236);
}

/// The semantic codebook and each acoustic codebook are made of the sums and the usage asked for under
/// their names, and the two output projections are read by theirs.
pub proof fn law_codebooks_are_read_by_name<'a, T: TensorStore<B::Scalar>, B: Bits>(
    requests: Requests<T, B::Scalar>,
    from: T,
    to: T,
    label: Seq<char>,
    held: CodecCheckpoint<B>,
    q: SplitResidualVectorQuantizer<'a, B>,
    k: int,
    sum: Seq<B::Scalar>,
    usage: Seq<B::Scalar>,
)
    requires
        requests.follows(from, to, label),
        requests.yields::<B>(Ok::<CodecCheckpoint<B>, CheckpointError>(held)),
        held.lends_quantizer(q),
        0 <= k < 15,
        sum == requests.answer(2 * k + 2),
        usage == requests.answer(2 * k + 3),
    ensures
        ({
            let at = "decoder.quantizer.rvq_rest.vq.layers."@ + decimal_of(k as nat)
                + "._codebook"@;
            &&& answered_as(requests, label, at + ".embedding_sum"@, sum)
            &&& answered_as(requests, label, at + ".cluster_usage"@, usage)
            &&& requests.makes::<B>(k + 1, q.rest_codebooks@[k])
            &&& answered_as(
                requests,
                label,
                "decoder.quantizer.rvq_first.vq.layers.0._codebook"@ + ".embedding_sum"@,
                requests.answer(0),
            )
            &&& answered_as(
                requests,
                label,
                "decoder.quantizer.rvq_first.vq.layers.0._codebook"@ + ".cluster_usage"@,
                requests.answer(1),
            )
            &&& requests.makes::<B>(0, *q.first_codebook)
            &&& answered_as(
                requests,
                label,
                "decoder.quantizer.rvq_first.output_proj.weight"@,
                q.first_output_proj@,
            )
            &&& answered_as(
                requests,
                label,
                "decoder.quantizer.rvq_rest.output_proj.weight"@,
                q.rest_output_proj@,
            )
        }),
{
    lemma_answered_as::<T, B>(requests, from, to, label, held, 0);
    lemma_answered_as::<T, B>(requests, from, to, label, held, 1);
    assert(requests.asks(0, label) && requests.replies[0] is Ok);
    assert(requests.asks(1, label) && requests.replies[1] is Ok);
    assert(requests.asks(2 * k + 2, label) && requests.replies[2 * k + 2] is Ok);
    assert(requests.asks(2 * k + 3, label) && requests.replies[2 * k + 3] is Ok);
    assert((2 * k + 2) / 2 == k + 1 && (2 * k + 2) % 2 == 0);
    assert((2 * k + 3) / 2 == k + 1 && (2 * k + 3) % 2 == 1);
    assert(q.rest_codebooks@[k] == held.book(k + 1));
    assert(requests.makes::<B>(k + 1, held.book(k + 1)));
    assert(requests.makes::<B>(0, held.book(0)));
}

/// Each weight of a layer of the speech encoder is what the file holds under its name.
pub proof fn law_encoder_layers_are_read_by_name<A: Arithmetic>(
    encoder: SpeechEncoder<A>,
    file: TensorFile<A::Scalar>,
    l: int,
)
    requires
        encoder.holds(file),
        0 <= l < 8,
    ensures
        ({
            let at = "encoder.encoder_transformer.layers."@ + decimal_of(l as nat);
            let layer = encoder.layer(l);
            &&& read_as::<A>(file, at + ".input_layernorm.weight"@, layer.input_norm_weight@)
            &&& read_as::<A>(file, at + ".input_layernorm.bias"@, layer.input_norm_bias@)
            &&& read_as::<A>(file, at + ".self_attn.q_proj.weight"@, layer.q_proj@)
            &&& read_as::<A>(file, at + ".self_attn.k_proj.weight"@, layer.k_proj@)
            &&& read_as::<A>(file, at + ".self_attn.v_proj.weight"@, layer.v_proj@)
            &&& read_as::<A>(file, at + ".self_attn.o_proj.weight"@, layer.o_proj@)
            &&& read_as::<A>(file, at + ".self_attn_layer_scale.scale"@, layer.attn_scale@)
            &&& read_as::<A>(
                file,
                at + ".post_attention_layernorm.weight"@,
                layer.post_norm_weight@,
            )
            &&& read_as::<A>(file, at + ".post_attention_layernorm.bias"@, layer.post_norm_bias@)
            &&& read_as::<A>(file, at + ".mlp.fc1.weight"@, layer.fc1@)
            &&& read_as::<A>(file, at + ".mlp.fc2.weight"@, layer.fc2@)
            &&& read_as::<A>(file, at + ".mlp_layer_scale.scale"@, layer.mlp_scale@)
        }),
{
    let tensors = speech_encoder::encoder::layer_tensors(encoder.layer(l));
    assert(tensors[0] == speech_encoder::encoder::layer_tensors(encoder.layer(l))[0]);
    assert((12 * l + 0) / 12 == l && (12 * l + 0) % 12 == 0);
    assert(tensors[1] == speech_encoder::encoder::layer_tensors(encoder.layer(l))[1]);
    assert((12 * l + 1) / 12 == l && (12 * l + 1) % 12 == 1);
    assert(tensors[2] == speech_encoder::encoder::layer_tensors(encoder.layer(l))[2]);
    assert((12 * l + 2) / 12 == l && (12 * l + 2) % 12 == 2);
    assert(tensors[3] == speech_encoder::encoder::layer_tensors(encoder.layer(l))[3]);
    assert((12 * l + 3) / 12 == l && (12 * l + 3) % 12 == 3);
    assert(tensors[4] == speech_encoder::encoder::layer_tensors(encoder.layer(l))[4]);
    assert((12 * l + 4) / 12 == l && (12 * l + 4) % 12 == 4);
    assert(tensors[5] == speech_encoder::encoder::layer_tensors(encoder.layer(l))[5]);
    assert((12 * l + 5) / 12 == l && (12 * l + 5) % 12 == 5);
    assert(tensors[6] == speech_encoder::encoder::layer_tensors(encoder.layer(l))[6]);
    assert((12 * l + 6) / 12 == l && (12 * l + 6) % 12 == 6);
    assert(tensors[7] == speech_encoder::encoder::layer_tensors(encoder.layer(l))[7]);
    assert((12 * l + 7) / 12 == l && (12 * l + 7) % 12 == 7);
    assert(tensors[8] == speech_encoder::encoder::layer_tensors(encoder.layer(l))[8]);
    assert((12 * l + 8) / 12 == l && (12 * l + 8) % 12 == 8);
    assert(tensors[9] == speech_encoder::encoder::layer_tensors(encoder.layer(l))[9]);
    assert((12 * l + 9) / 12 == l && (12 * l + 9) % 12 == 9);
    assert(tensors[10] == speech_encoder::encoder::layer_tensors(encoder.layer(l))[10]);
    assert((12 * l + 10) / 12 == l && (12 * l + 10) % 12 == 10);
    assert(tensors[11] == speech_encoder::encoder::layer_tensors(encoder.layer(l))[11]);
    assert((12 * l + 11) / 12 == l && (12 * l + 11) % 12 == 11);
}

/// Each convolution of the speech encoder is what the file holds under its name: the stem, the two
/// convolutions of each stage's unit and its strided one, the last, and the downsampling.
pub proof fn law_encoder_convolutions_are_read_by_name<A: Arithmetic>(
    encoder: SpeechEncoder<A>,
    file: TensorFile<A::Scalar>,
    s: int,
)
    requires
        encoder.holds(file),
        0 <= s < 4,
    ensures
        ({
            let unit = "encoder.encoder.layers."@ + decimal_of((3 * s + 1) as nat);
            let down = "encoder.encoder.layers."@ + decimal_of((3 * s + 3) as nat) + ".conv"@;
            let first = encoder.conv(3 * s + 1);
            let second = encoder.conv(3 * s + 2);
            let strided = encoder.conv(3 * s + 3);
            &&& read_as::<A>(
                file,
                "encoder.encoder.layers.0.conv"@ + ".weight"@,
                encoder.conv(0).weight@,
            )
            &&& read_as::<A>(
                file,
                "encoder.encoder.layers.0.conv"@ + ".bias"@,
                encoder.conv(0).bias->0@,
            )
            &&& read_as::<A>(file, unit + ".block.1.conv"@ + ".weight"@, first.weight@)
            &&& read_as::<A>(file, unit + ".block.1.conv"@ + ".bias"@, first.bias->0@)
            &&& read_as::<A>(file, unit + ".block.3.conv"@ + ".weight"@, second.weight@)
            &&& read_as::<A>(file, unit + ".block.3.conv"@ + ".bias"@, second.bias->0@)
            &&& read_as::<A>(file, down + ".weight"@, strided.weight@)
            &&& read_as::<A>(file, down + ".bias"@, strided.bias->0@)
            &&& read_as::<A>(
                file,
                "encoder.encoder.layers.14.conv"@ + ".weight"@,
                encoder.conv(13).weight@,
            )
            &&& read_as::<A>(
                file,
                "encoder.encoder.layers.14.conv"@ + ".bias"@,
                encoder.conv(13).bias->0@,
            )
            &&& read_as::<A>(
                file,
                "encoder.downsample.conv"@ + ".weight"@,
                encoder.conv(14).weight@,
            )
        }),
{
    let c0 = encoder.conv(0);
    let c1 = encoder.conv(3 * s + 1);
    let c2 = encoder.conv(3 * s + 2);
    let c3 = encoder.conv(3 * s + 3);
    let c13 = encoder.conv(13);
    assert((3 * s) / 3 == s && (3 * s) % 3 == 0);
    assert((3 * s + 1) / 3 == s && (3 * s + 1) % 3 == 1);
    assert((3 * s + 2) / 3 == s && (3 * s + 2) % 3 == 2);
}

/// Each convolution of a speaker encoder is what the file holds under its name: the chained groups of
/// a block, the convolutions around them, its gate, and those that stand once.
pub proof fn law_speaker_convolutions_are_read_by_name<A: Arithmetic>(
    file: &TensorFile<A::Scalar>,
    path: &str,
    encoder: Encoder<A>,
    b: int,
    k: int,
)
    requires
        arith::pure::<A>(),
        call_ensures(
            Encoder::<A>::load,
            (file, path),
            Ok::<Encoder<A>, CheckpointError>(encoder),
        ),
        0 <= b < 3,
        0 <= k < 7,
    ensures
        ({
            let at = "speaker_encoder.blocks."@ + decimal_of((b + 1) as nat);
            let branch = at + (".res2net_block.blocks."@ + decimal_of(k as nat) + ".conv"@);
            &&& read_as::<A>(*file, branch + ".weight"@, encoder.conv(11 * b + k).weight@)
            &&& read_as::<A>(*file, branch + ".bias"@, encoder.conv(11 * b + k).bias@)
            &&& read_as::<A>(
                *file,
                at + ".tdnn1.conv"@ + ".weight"@,
                encoder.conv(11 * b + 7).weight@,
            )
            &&& read_as::<A>(*file, at + ".tdnn1.conv"@ + ".bias"@, encoder.conv(11 * b + 7).bias@)
            &&& read_as::<A>(
                *file,
                at + ".tdnn2.conv"@ + ".weight"@,
                encoder.conv(11 * b + 8).weight@,
            )
            &&& read_as::<A>(*file, at + ".tdnn2.conv"@ + ".bias"@, encoder.conv(11 * b + 8).bias@)
            &&& read_as::<A>(
                *file,
                at + ".se_block.conv1"@ + ".weight"@,
                encoder.conv(11 * b + 9).weight@,
            )
            &&& read_as::<A>(
                *file,
                at + ".se_block.conv1"@ + ".bias"@,
                encoder.conv(11 * b + 9).bias@,
            )
            &&& read_as::<A>(
                *file,
                at + ".se_block.conv2"@ + ".weight"@,
                encoder.conv(11 * b + 10).weight@,
            )
            &&& read_as::<A>(
                *file,
                at + ".se_block.conv2"@ + ".bias"@,
                encoder.conv(11 * b + 10).bias@,
            )
            &&& read_as::<A>(
                *file,
                "speaker_encoder.blocks.0.conv"@ + ".weight"@,
                encoder.conv(33).weight@,
            )
            &&& read_as::<A>(
                *file,
                "speaker_encoder.blocks.0.conv"@ + ".bias"@,
                encoder.conv(33).bias@,
            )
            &&& read_as::<A>(
                *file,
                "speaker_encoder.mfa.conv"@ + ".weight"@,
                encoder.conv(34).weight@,
            )
            &&& read_as::<A>(*file, "speaker_encoder.mfa.conv"@ + ".bias"@, encoder.conv(34).bias@)
            &&& read_as::<A>(
                *file,
                "speaker_encoder.asp.tdnn.conv"@ + ".weight"@,
                encoder.conv(35).weight@,
            )
            &&& read_as::<A>(
                *file,
                "speaker_encoder.asp.tdnn.conv"@ + ".bias"@,
                encoder.conv(35).bias@,
            )
            &&& read_as::<A>(
                *file,
                "speaker_encoder.asp.conv"@ + ".weight"@,
                encoder.conv(36).weight@,
            )
            &&& read_as::<A>(*file, "speaker_encoder.asp.conv"@ + ".bias"@, encoder.conv(36).bias@)
            &&& read_as::<A>(*file, "speaker_encoder.fc"@ + ".weight"@, encoder.conv(37).weight@)
            &&& read_as::<A>(*file, "speaker_encoder.fc"@ + ".bias"@, encoder.conv(37).bias@)
        }),
{
    let i = 11 * b;
    lemma_speaker_conv::<A>(file, path, encoder, i + k);
    lemma_speaker_conv::<A>(file, path, encoder, i + 7);
    lemma_speaker_conv::<A>(file, path, encoder, i + 8);
    lemma_speaker_conv::<A>(file, path, encoder, i + 9);
    lemma_speaker_conv::<A>(file, path, encoder, i + 10);
    lemma_speaker_conv::<A>(file, path, encoder, 33);
    lemma_speaker_conv::<A>(file, path, encoder, 34);
    lemma_speaker_conv::<A>(file, path, encoder, 35);
    lemma_speaker_conv::<A>(file, path, encoder, 36);
    lemma_speaker_conv::<A>(file, path, encoder, 37);
    assert((i + k) / 11 == b && (i + k) % 11 == k);
    assert((i + 7) / 11 == b && (i + 7) % 11 == 7);
    assert((i + 8) / 11 == b && (i + 8) % 11 == 8);
    assert((i + 9) / 11 == b && (i + 9) % 11 == 9);
    assert((i + 10) / 11 == b && (i + 10) % 11 == 10);
}

/// Convolution `i` of a loaded speaker encoder is what the file holds under its base.
proof fn lemma_speaker_conv<A: Arithmetic>(
    file: &TensorFile<A::Scalar>,
    path: &str,
    encoder: Encoder<A>,
    i: int,
)
    requires
        arith::pure::<A>(),
        call_ensures(
            Encoder::<A>::load,
            (file, path),
            Ok::<Encoder<A>, CheckpointError>(encoder),
        ),
        0 <= i < 38,
    ensures
        read_as::<A>(*file, speaker::encoder::base_of(i) + ".weight"@, encoder.conv(i).weight@),
        read_as::<A>(*file, speaker::encoder::base_of(i) + ".bias"@, encoder.conv(i).bias@),
{
    let layer = encoder.conv(i);
    assert((2 * i) / 2 == i && (2 * i + 1) / 2 == i);
    assert((2 * i) % 2 == 0 && (2 * i + 1) % 2 == 1);
}

} // verus!
