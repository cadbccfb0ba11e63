//! The tensors of a codec decoder checkpoint, codebooks aside, in the order in which they are
//! taken.
use vstd::prelude::*;
use vstd::string::StringExecFns;
use crate::text;
use crate::text::{append_decimal, join_number};

verus! {

/// How many tensors there are besides the codebooks.
pub const CODEC_TENSORS: usize = 237;

/// The end of the name of tensor `j` of a transformer layer.
pub open spec fn layer_suffix_of(j: int) -> Seq<char> {
    if j == 0 {
        ".input_layernorm.weight"@
    } else if j == 1 {
        ".self_attn.q_proj.weight"@
    } else if j == 2 {
        ".self_attn.k_proj.weight"@
    } else if j == 3 {
        ".self_attn.v_proj.weight"@
    } else if j == 4 {
        ".self_attn.o_proj.weight"@
    } else if j == 5 {
        ".self_attn_layer_scale.scale"@
    } else if j == 6 {
        ".post_attention_layernorm.weight"@
    } else if j == 7 {
        ".mlp.gate_proj.weight"@
    } else if j == 8 {
        ".mlp.up_proj.weight"@
    } else if j == 9 {
        ".mlp.down_proj.weight"@
    } else {
        ".mlp_layer_scale.scale"@
    }
}

/// The end of the name of tensor `j` of a transformer layer.
fn layer_suffix(j: usize) -> (text: &'static str)
    requires
        j < 11,
    ensures
        text@ == layer_suffix_of(j as int),
{
    if j == 0 {
        ".input_layernorm.weight"
    } else if j == 1 {
        ".self_attn.q_proj.weight"
    } else if j == 2 {
        ".self_attn.k_proj.weight"
    } else if j == 3 {
        ".self_attn.v_proj.weight"
    } else if j == 4 {
        ".self_attn.o_proj.weight"
    } else if j == 5 {
        ".self_attn_layer_scale.scale"
    } else if j == 6 {
        ".post_attention_layernorm.weight"
    } else if j == 7 {
        ".mlp.gate_proj.weight"
    } else if j == 8 {
        ".mlp.up_proj.weight"
    } else if j == 9 {
        ".mlp.down_proj.weight"
    } else {
        ".mlp_layer_scale.scale"
    }
}

/// The end of the name of tensor `j` of a latent stage.
pub open spec fn stage_suffix_of(j: int) -> Seq<char> {
    if j == 0 {
        ".0.conv.weight"@
    } else if j == 1 {
        ".0.conv.bias"@
    } else if j == 2 {
        ".1.dwconv.conv.weight"@
    } else if j == 3 {
        ".1.dwconv.conv.bias"@
    } else if j == 4 {
        ".1.norm.weight"@
    } else if j == 5 {
        ".1.norm.bias"@
    } else if j == 6 {
        ".1.pwconv1.weight"@
    } else if j == 7 {
        ".1.pwconv1.bias"@
    } else if j == 8 {
        ".1.pwconv2.weight"@
    } else if j == 9 {
        ".1.pwconv2.bias"@
    } else {
        ".1.gamma"@
    }
}

/// The end of the name of tensor `j` of a latent stage.
fn stage_suffix(j: usize) -> (text: &'static str)
    requires
        j < 11,
    ensures
        text@ == stage_suffix_of(j as int),
{
    if j == 0 {
        ".0.conv.weight"
    } else if j == 1 {
        ".0.conv.bias"
    } else if j == 2 {
        ".1.dwconv.conv.weight"
    } else if j == 3 {
        ".1.dwconv.conv.bias"
    } else if j == 4 {
        ".1.norm.weight"
    } else if j == 5 {
        ".1.norm.bias"
    } else if j == 6 {
        ".1.pwconv1.weight"
    } else if j == 7 {
        ".1.pwconv1.bias"
    } else if j == 8 {
        ".1.pwconv2.weight"
    } else if j == 9 {
        ".1.pwconv2.bias"
    } else {
        ".1.gamma"
    }
}

/// The end of the name of tensor `j` of a residual unit.
pub open spec fn unit_suffix_of(j: int) -> Seq<char> {
    if j == 0 {
        ".act1.alpha"@
    } else if j == 1 {
        ".act1.beta"@
    } else if j == 2 {
        ".conv1.conv.weight"@
    } else if j == 3 {
        ".conv1.conv.bias"@
    } else if j == 4 {
        ".act2.alpha"@
    } else if j == 5 {
        ".act2.beta"@
    } else if j == 6 {
        ".conv2.conv.weight"@
    } else {
        ".conv2.conv.bias"@
    }
}

/// The end of the name of tensor `j` of a residual unit.
fn unit_suffix(j: usize) -> (text: &'static str)
    requires
        j < 8,
    ensures
        text@ == unit_suffix_of(j as int),
{
    if j == 0 {
        ".act1.alpha"
    } else if j == 1 {
        ".act1.beta"
    } else if j == 2 {
        ".conv1.conv.weight"
    } else if j == 3 {
        ".conv1.conv.bias"
    } else if j == 4 {
        ".act2.alpha"
    } else if j == 5 {
        ".act2.beta"
    } else if j == 6 {
        ".conv2.conv.weight"
    } else {
        ".conv2.conv.bias"
    }
}

/// The end of the name of tensor `j` of a waveform block, before its units.
pub open spec fn block_suffix_of(j: int) -> Seq<char> {
    if j == 0 {
        ".block.0.alpha"@
    } else if j == 1 {
        ".block.0.beta"@
    } else if j == 2 {
        ".block.1.conv.weight"@
    } else {
        ".block.1.conv.bias"@
    }
}

/// The end of the name of tensor `j` of a waveform block, before its units.
fn block_suffix(j: usize) -> (text: &'static str)
    requires
        j < 4,
    ensures
        text@ == block_suffix_of(j as int),
{
    if j == 0 {
        ".block.0.alpha"
    } else if j == 1 {
        ".block.0.beta"
    } else if j == 2 {
        ".block.1.conv.weight"
    } else {
        ".block.1.conv.bias"
    }
}

/// The length of tensor `j` of a transformer layer.
pub open spec fn layer_len(j: int) -> int {
    if j == 0 {
        512
    } else if j == 1 {
        524_288
    } else if j == 2 {
        524_288
    } else if j == 3 {
        524_288
    } else if j == 4 {
        524_288
    } else if j == 5 {
        512
    } else if j == 6 {
        512
    } else if j == 7 {
        524_288
    } else if j == 8 {
        524_288
    } else if j == 9 {
        524_288
    } else {
        512
    }
}

/// The length of tensor `j` of a latent stage.
pub open spec fn stage_len(j: int) -> int {
    if j == 0 {
        2_097_152
    } else if j == 1 {
        1_024
    } else if j == 2 {
        7_168
    } else if j == 3 {
        1_024
    } else if j == 4 {
        1_024
    } else if j == 5 {
        1_024
    } else if j == 6 {
        4_194_304
    } else if j == 7 {
        4_096
    } else if j == 8 {
        4_194_304
    } else if j == 9 {
        1_024
    } else {
        1_024
    }
}

/// Channels before waveform block `b`.
pub open spec fn block_input(b: int) -> int {
    if b == 0 {
        1_536
    } else if b == 1 {
        768
    } else if b == 2 {
        384
    } else {
        192
    }
}

/// Samples per frame after waveform block `b`.
pub open spec fn block_stride(b: int) -> int {
    if b == 0 {
        8
    } else if b == 1 {
        5
    } else if b == 2 {
        4
    } else {
        3
    }
}

/// The length of tensor `j` of a residual unit of `channels`.
pub open spec fn unit_len(channels: int, j: int) -> int {
    if j == 2 {
        channels * channels * 7
    } else if j == 6 {
        channels * channels
    } else {
        channels
    }
}

/// The length of tensor `j` of waveform block `b`.
pub open spec fn block_len(b: int, j: int) -> int {
    let input = block_input(b);
    let output = input / 2;
    if j == 0 || j == 1 {
        input
    } else if j == 2 {
        input * output * (2 * block_stride(b))
    } else if j == 3 {
        output
    } else {
        unit_len(output, (j - 4) % 8)
    }
}

/// The name of tensor `j` of waveform block `b`.
pub open spec fn block_name(b: int, j: int) -> Seq<char> {
    let prefix = "decoder.decoder."@ + text::decimal_of((b + 1) as nat);
    if j < 4 {
        prefix + block_suffix_of(j)
    } else {
        prefix + ".block."@ + text::decimal_of(((j - 4) / 8 + 2) as nat) + unit_suffix_of(
            (j - 4) % 8,
        )
    }
}

/// The name of tensor `j` of waveform block `b`.
fn block_tensor_name(b: usize, j: usize) -> (name: String)
    requires
        b < 4,
        j < 28,
    ensures
        name@ == block_name(b as int, j as int),
{
    if j < 4 {
        join_number("decoder.decoder.", b + 1, block_suffix(j))
    } else {
        let mut name = join_number("decoder.decoder.", b + 1, ".block.");
        append_decimal(&mut name, (j - 4) / 8 + 2);
        name.append(unit_suffix((j - 4) % 8));
        name
    }
}

/// The name of tensor `i` of the decoder.
pub open spec fn codec_name(i: int) -> Seq<char> {
    if i == 0 {
        "decoder.quantizer.rvq_first.output_proj.weight"@
    } else if i == 1 {
        "decoder.quantizer.rvq_rest.output_proj.weight"@
    } else if i == 2 {
        "decoder.pre_conv.conv.weight"@
    } else if i == 3 {
        "decoder.pre_conv.conv.bias"@
    } else if i == 4 {
        "decoder.pre_transformer.input_proj.weight"@
    } else if i == 5 {
        "decoder.pre_transformer.input_proj.bias"@
    } else if i < 94 {
        "decoder.pre_transformer.layers."@ + text::decimal_of(((i - 6) / 11) as nat) + layer_suffix_of(
            (i - 6) % 11,
        )
    } else if i == 94 {
        "decoder.pre_transformer.norm.weight"@
    } else if i == 95 {
        "decoder.pre_transformer.output_proj.weight"@
    } else if i == 96 {
        "decoder.pre_transformer.output_proj.bias"@
    } else if i < 119 {
        "decoder.upsample."@ + text::decimal_of(((i - 97) / 11) as nat) + stage_suffix_of((i - 97) % 11)
    } else if i == 119 {
        "decoder.decoder.0.conv.weight"@
    } else if i == 120 {
        "decoder.decoder.0.conv.bias"@
    } else if i < 233 {
        block_name((i - 121) / 28, (i - 121) % 28)
    } else if i == 233 {
        "decoder.decoder.5.alpha"@
    } else if i == 234 {
        "decoder.decoder.5.beta"@
    } else if i == 235 {
        "decoder.decoder.6.conv.weight"@
    } else {
        "decoder.decoder.6.conv.bias"@
    }
}

/// The name of tensor `i` of the decoder.
pub fn codec_tensor_name(i: usize) -> (name: String)
    requires
        i < CODEC_TENSORS,
    ensures
        name@ == codec_name(i as int),
{
    if i == 0 {
        String::from_str("decoder.quantizer.rvq_first.output_proj.weight")
    } else if i == 1 {
        String::from_str("decoder.quantizer.rvq_rest.output_proj.weight")
    } else if i == 2 {
        String::from_str("decoder.pre_conv.conv.weight")
    } else if i == 3 {
        String::from_str("decoder.pre_conv.conv.bias")
    } else if i == 4 {
        String::from_str("decoder.pre_transformer.input_proj.weight")
    } else if i == 5 {
        String::from_str("decoder.pre_transformer.input_proj.bias")
    } else if i < 94 {
        join_number(
            "decoder.pre_transformer.layers.",
            (i - 6) / 11,
            layer_suffix((i - 6) % 11),
        )
    } else if i == 94 {
        String::from_str("decoder.pre_transformer.norm.weight")
    } else if i == 95 {
        String::from_str("decoder.pre_transformer.output_proj.weight")
    } else if i == 96 {
        String::from_str("decoder.pre_transformer.output_proj.bias")
    } else if i < 119 {
        join_number("decoder.upsample.", (i - 97) / 11, stage_suffix((i - 97) % 11))
    } else if i == 119 {
        String::from_str("decoder.decoder.0.conv.weight")
    } else if i == 120 {
        String::from_str("decoder.decoder.0.conv.bias")
    } else if i < 233 {
        block_tensor_name((i - 121) / 28, (i - 121) % 28)
    } else if i == 233 {
        String::from_str("decoder.decoder.5.alpha")
    } else if i == 234 {
        String::from_str("decoder.decoder.5.beta")
    } else if i == 235 {
        String::from_str("decoder.decoder.6.conv.weight")
    } else {
        String::from_str("decoder.decoder.6.conv.bias")
    }
}

/// The length of tensor `i` of the decoder.
pub open spec fn codec_len(i: int) -> int {
    if i == 0 {
        131_072
    } else if i == 1 {
        131_072
    } else if i == 2 {
        1_572_864
    } else if i == 3 {
        1_024
    } else if i == 4 {
        524_288
    } else if i == 5 {
        512
    } else if i < 94 {
        layer_len((i - 6) % 11)
    } else if i == 94 {
        512
    } else if i == 95 {
        524_288
    } else if i == 96 {
        1_024
    } else if i < 119 {
        stage_len((i - 97) % 11)
    } else if i == 119 {
        11_010_048
    } else if i == 120 {
        1_536
    } else if i < 233 {
        block_len((i - 121) / 28, (i - 121) % 28)
    } else if i == 233 {
        96
    } else if i == 234 {
        96
    } else if i == 235 {
        672
    } else {
        1
    }
}

/// The length of tensor `j` of a transformer layer.
fn layer_tensor_len(j: usize) -> (len: usize)
    requires
        j < 11,
    ensures
        len == layer_len(j as int),
{
    if j == 0 {
        512
    } else if j == 1 {
        524_288
    } else if j == 2 {
        524_288
    } else if j == 3 {
        524_288
    } else if j == 4 {
        524_288
    } else if j == 5 {
        512
    } else if j == 6 {
        512
    } else if j == 7 {
        524_288
    } else if j == 8 {
        524_288
    } else if j == 9 {
        524_288
    } else {
        512
    }
}

/// The length of tensor `j` of a latent stage.
fn stage_tensor_len(j: usize) -> (len: usize)
    requires
        j < 11,
    ensures
        len == stage_len(j as int),
{
    if j == 0 {
        2_097_152
    } else if j == 1 {
        1_024
    } else if j == 2 {
        7_168
    } else if j == 3 {
        1_024
    } else if j == 4 {
        1_024
    } else if j == 5 {
        1_024
    } else if j == 6 {
        4_194_304
    } else if j == 7 {
        4_096
    } else if j == 8 {
        4_194_304
    } else if j == 9 {
        1_024
    } else {
        1_024
    }
}

/// Channels before waveform block `b`.
fn block_input_channels(b: usize) -> (channels: usize)
    requires
        b < 4,
    ensures
        channels == block_input(b as int),
{
    if b == 0 {
        1_536
    } else if b == 1 {
        768
    } else if b == 2 {
        384
    } else {
        192
    }
}

/// Samples per frame after waveform block `b`.
fn block_samples(b: usize) -> (samples: usize)
    requires
        b < 4,
    ensures
        samples == block_stride(b as int),
{
    if b == 0 {
        8
    } else if b == 1 {
        5
    } else if b == 2 {
        4
    } else {
        3
    }
}

/// The length of tensor `j` of a residual unit of `channels`.
fn unit_tensor_len(channels: usize, j: usize) -> (len: usize)
    requires
        channels <= 768,
        j < 8,
    ensures
        len == unit_len(channels as int, j as int),
{
    proof {
        assert(channels * channels <= 768 * 768) by (nonlinear_arith)
            requires
                channels <= 768,
        ;
    }
    if j == 2 {
        channels * channels * 7
    } else if j == 6 {
        channels * channels
    } else {
        channels
    }
}

/// The length of tensor `j` of waveform block `b`.
fn block_tensor_len(b: usize, j: usize) -> (len: usize)
    requires
        b < 4,
        j < 28,
    ensures
        len == block_len(b as int, j as int),
{
    let input: usize = block_input_channels(b);
    let output: usize = input / 2;
    if j == 0 || j == 1 {
        input
    } else if j == 2 {
        let taps: usize = 2 * block_samples(b);
        assert(input * output <= 1_179_648) by (nonlinear_arith)
            requires
                input <= 1_536,
                output <= 768,
        ;
        assert(input * output * taps <= 1_179_648 * 16) by (nonlinear_arith)
            requires
                input * output <= 1_179_648,
                taps <= 16,
        ;
        input * output * taps
    } else if j == 3 {
        output
    } else {
        unit_tensor_len(output, (j - 4) % 8)
    }
}

/// The length of tensor `i` of the decoder.
pub fn codec_tensor_len(i: usize) -> (len: usize)
    requires
        i < CODEC_TENSORS,
    ensures
        len == codec_len(i as int),
{
    if i == 0 {
        131_072
    } else if i == 1 {
        131_072
    } else if i == 2 {
        1_572_864
    } else if i == 3 {
        1_024
    } else if i == 4 {
        524_288
    } else if i == 5 {
        512
    } else if i < 94 {
        layer_tensor_len((i - 6) % 11)
    } else if i == 94 {
        512
    } else if i == 95 {
        524_288
    } else if i == 96 {
        1_024
    } else if i < 119 {
        stage_tensor_len((i - 97) % 11)
    } else if i == 119 {
        11_010_048
    } else if i == 120 {
        1_536
    } else if i < 233 {
        block_tensor_len((i - 121) / 28, (i - 121) % 28)
    } else if i == 233 {
        96
    } else if i == 234 {
        96
    } else if i == 235 {
        672
    } else {
        1
    }
}

} // verus!
